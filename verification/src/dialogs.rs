//! The dialog engine: a conversation is a command name, a current step and
//! the payloads of the steps already visited. It is persisted as a
//! `DialogEntity` row whose data field uses an explicit, versioned text
//! format: a brace-wrapped list of quoted name/value pairs with backslash
//! escapes. Decoding is exact — a row that no encoding produces is
//! malformed, never guessed at.

use vstd::prelude::*;
use vstd::string::StrSliceExecFns;
use vstd::string::StringExecFns;

pub mod feedback;
pub mod subscribe;
pub mod unsubscribe;

verus! {

/// An in-progress conversation of one user: the command it belongs to, the
/// step about to consume the next payload, and what earlier steps received.
#[derive(Debug, PartialEq)]
pub struct Dialog<T> {
    pub command: String,
    pub user_id: String,
    pub current_step: T,
    pub data: Vec<(T, String)>,
}

/// What one step of a dialog decided: the replies to send, and the
/// subscriptions whose digests should be delivered right away.
pub struct StepOutcome {
    pub messages: Vec<crate::telegram::Message>,
    pub deliveries: Vec<crate::models::Subscription>,
}

/// The payload stored for a step, first match.
pub open spec fn lookup<T>(data: Seq<(T, String)>, k: T) -> Option<Seq<char>>
    decreases data.len(),
{
    if data.len() == 0 {
        None
    } else if data[0].0 == k {
        Some(data[0].1@)
    } else {
        lookup(data.skip(1), k)
    }
}

/// Each step appears at most once in the stored payloads.
pub open spec fn keys_distinct<T>(data: Seq<(T, String)>) -> bool {
    forall|i: int, j: int| 0 <= i < j < data.len() ==> (#[trigger] data[i]).0 != (#[trigger] data[j]).0
}

/// The escape of one character inside a quoted field.
pub open spec fn esc_char(c: char) -> Seq<char> {
    if c == '"' {
        seq!['\\', '"']
    } else if c == '\\' {
        seq!['\\', '\\']
    } else if c == '\n' {
        seq!['\\', 'n']
    } else if c == '\r' {
        seq!['\\', 'r']
    } else if c == '\t' {
        seq!['\\', 't']
    } else {
        seq![c]
    }
}

/// The escaped body of a quoted field.
pub open spec fn esc(s: Seq<char>) -> Seq<char>
    decreases s.len(),
{
    if s.len() == 0 {
        s
    } else {
        esc(s.drop_last()) + esc_char(s.last())
    }
}

/// One encoded pair: both fields quoted and escaped, joined by a colon.
pub open spec fn enc_item(p: (Seq<char>, Seq<char>)) -> Seq<char> {
    seq!['"'] + esc(p.0) + seq!['"', ':', '"'] + esc(p.1) + seq!['"']
}

/// The encoded pair list, comma-separated.
pub open spec fn enc_items(ps: Seq<(Seq<char>, Seq<char>)>) -> Seq<char>
    decreases ps.len(),
{
    if ps.len() == 0 {
        Seq::empty()
    } else if ps.len() == 1 {
        enc_item(ps[0])
    } else {
        enc_items(ps.drop_last()) + seq![','] + enc_item(ps.last())
    }
}

/// The whole encoded data field.
pub open spec fn enc_pairs(ps: Seq<(Seq<char>, Seq<char>)>) -> Seq<char> {
    seq!['{'] + enc_items(ps) + seq!['}']
}

/// Reads a quoted field after its opening quote: the decoded content and
/// how many characters were consumed, closing quote included.
pub open spec fn dec_qstr(s: Seq<char>) -> Option<(Seq<char>, int)>
    decreases s.len(),
{
    if s.len() == 0 {
        None
    } else if s[0] == '"' {
        Some((Seq::empty(), 1))
    } else if s[0] == '\\' {
        if s.len() >= 2 && (s[1] == '"' || s[1] == '\\') {
            match dec_qstr(s.skip(2)) {
                Some(r) => Some((seq![s[1]] + r.0, r.1 + 2)),
                None => None,
            }
        } else if s.len() >= 2 && s[1] == 'n' {
            match dec_qstr(s.skip(2)) {
                Some(r) => Some((seq!['\n'] + r.0, r.1 + 2)),
                None => None,
            }
        } else if s.len() >= 2 && s[1] == 'r' {
            match dec_qstr(s.skip(2)) {
                Some(r) => Some((seq!['\r'] + r.0, r.1 + 2)),
                None => None,
            }
        } else if s.len() >= 2 && s[1] == 't' {
            match dec_qstr(s.skip(2)) {
                Some(r) => Some((seq!['\t'] + r.0, r.1 + 2)),
                None => None,
            }
        } else {
            None
        }
    } else {
        match dec_qstr(s.skip(1)) {
            Some(r) => Some((seq![s[0]] + r.0, r.1 + 1)),
            None => None,
        }
    }
}

/// Reads a comma-separated pair list to the end of the input.
pub open spec fn dec_items(s: Seq<char>) -> Option<Seq<(Seq<char>, Seq<char>)>>
    decreases s.len(),
{
    if s.len() == 0 {
        Some(Seq::empty())
    } else if s[0] != '"' {
        None
    } else {
        match dec_qstr(s.skip(1)) {
            None => None,
            Some(nr) => {
                let after_name = 1 + nr.1;
                if !(1 <= nr.1 && after_name + 2 <= s.len() && s[after_name] == ':' && s[after_name
                    + 1] == '"') {
                    None
                } else {
                    match dec_qstr(s.skip(after_name + 2)) {
                        None => None,
                        Some(vr) => {
                            let end = after_name + 2 + vr.1;
                            if vr.1 < 1 {
                                None
                            } else if end == s.len() {
                                Some(seq![(nr.0, vr.0)])
                            } else if end < s.len() && s[end] == ',' {
                                match dec_items(s.skip(end + 1)) {
                                    None => None,
                                    Some(rest) => {
                                        if rest.len() == 0 {
                                            None
                                        } else {
                                            Some(seq![(nr.0, vr.0)] + rest)
                                        }
                                    },
                                }
                            } else {
                                None
                            }
                        },
                    }
                }
            },
        }
    }
}

/// The whole data field: braces around the pair list.
pub open spec fn dec_pairs(s: Seq<char>) -> Option<Seq<(Seq<char>, Seq<char>)>> {
    if s.len() >= 2 && s[0] == '{' && s.last() == '}' {
        dec_items(s.subrange(1, s.len() - 1))
    } else {
        None
    }
}

/// Escaping unfolds at the front as well.
proof fn lemma_esc_front(s: Seq<char>)
    requires
        s.len() > 0,
    ensures
        esc(s) == esc_char(s[0]) + esc(s.skip(1)),
    decreases s.len(),
{
    if s.len() == 1 {
        assert(s.drop_last().len() == 0);
        assert(s.skip(1).len() == 0);
        assert(esc(s.drop_last()).len() == 0);
        assert(esc(s.skip(1)).len() == 0);
        assert(esc(s) =~= esc_char(s[0]) + esc(s.skip(1)));
    } else {
        lemma_esc_front(s.drop_last());
        assert(s.drop_last()[0] == s[0]);
        assert(s.drop_last().skip(1) =~= s.skip(1).drop_last());
        assert(s.skip(1).last() == s.last());
        assert(esc(s) == esc(s.drop_last()) + esc_char(s.last()));
        assert(esc(s.skip(1)) == esc(s.skip(1).drop_last()) + esc_char(s.skip(1).last()));
        assert((esc_char(s[0]) + esc(s.skip(1).drop_last())) + esc_char(s.skip(1).last()) =~= esc_char(
            s[0],
        ) + (esc(s.skip(1).drop_last()) + esc_char(s.skip(1).last())));
        assert(esc(s) =~= esc_char(s[0]) + esc(s.skip(1)));
    }
}

/// A quoted field reads back to what was escaped, whatever follows the
/// closing quote.
proof fn lemma_dec_qstr_esc(v: Seq<char>, tail: Seq<char>)
    ensures
        dec_qstr(esc(v) + seq!['"'] + tail) == Some((v, esc(v).len() as int + 1)),
    decreases v.len(),
{
    let s = esc(v) + seq!['"'] + tail;
    if v.len() == 0 {
        assert(esc(v).len() == 0);
        assert(s[0] == '"');
        assert(dec_qstr(s) == Some((Seq::<char>::empty(), 1int)));
        assert(v =~= Seq::<char>::empty());
    } else {
        lemma_esc_front(v);
        let c = v[0];
        let ec = esc_char(c);
        lemma_dec_qstr_esc(v.skip(1), tail);
        let srest = esc(v.skip(1)) + seq!['"'] + tail;
        if c == '"' || c == '\\' || c == '\n' || c == '\r' || c == '\t' {
            assert(ec.len() == 2);
            assert(s[0] == '\\');
            assert(s[1] == ec[1]);
            assert(s.skip(2) =~= srest);
            assert(dec_qstr(s.skip(2)) == Some((v.skip(1), esc(v.skip(1)).len() as int + 1)));
            assert(seq![if ec[1] == '"' || ec[1] == '\\' {
                ec[1]
            } else if ec[1] == 'n' {
                '\n'
            } else if ec[1] == 'r' {
                '\r'
            } else {
                '\t'
            }] + v.skip(1) =~= v);
        } else {
            assert(ec =~= seq![c]);
            assert(s[0] == c);
            assert(c != '"' && c != '\\');
            assert(s.skip(1) =~= srest);
            assert(dec_qstr(s.skip(1)) == Some((v.skip(1), esc(v.skip(1)).len() as int + 1)));
            assert(seq![c] + v.skip(1) =~= v);
        }
        assert(esc(v).len() == ec.len() + esc(v.skip(1)).len());
    }
}

/// The pair list also encodes item-first.
proof fn lemma_enc_items_front(ps: Seq<(Seq<char>, Seq<char>)>)
    requires
        ps.len() > 0,
    ensures
        ps.len() == 1 ==> enc_items(ps) == enc_item(ps[0]),
        ps.len() > 1 ==> enc_items(ps) == enc_item(ps[0]) + seq![','] + enc_items(ps.skip(1)),
    decreases ps.len(),
{
    if ps.len() > 1 {
        lemma_enc_items_front(ps.drop_last());
        assert(ps.drop_last()[0] == ps[0]);
        assert(ps.drop_last().skip(1) =~= ps.skip(1).drop_last());
        assert(ps.skip(1).last() == ps.last());
        if ps.len() == 2 {
            assert(ps.skip(1).len() == 1);
            assert(ps.skip(1)[0] == ps[1]);
            assert(enc_items(ps.skip(1)) == enc_item(ps[1]));
            assert(enc_items(ps) =~= enc_item(ps[0]) + seq![','] + enc_items(ps.skip(1)));
        } else {
            assert(enc_items(ps.skip(1)) == enc_items(ps.skip(1).drop_last()) + seq![',']
                + enc_item(ps.skip(1).last()));
            assert(enc_items(ps) =~= enc_item(ps[0]) + seq![','] + enc_items(ps.skip(1)));
        }
    }
}

/// The encoded pair list reads back exactly.
#[verifier::rlimit(50)]
proof fn lemma_dec_items_enc(ps: Seq<(Seq<char>, Seq<char>)>)
    ensures
        dec_items(enc_items(ps)) == Some(ps),
    decreases ps.len(),
{
    let s = enc_items(ps);
    if ps.len() == 0 {
        assert(s.len() == 0);
        assert(dec_items(s) == Some(Seq::<(Seq<char>, Seq<char>)>::empty()));
        assert(ps =~= Seq::<(Seq<char>, Seq<char>)>::empty());
    } else {
        lemma_enc_items_front(ps);
        let name = ps[0].0;
        let val = ps[0].1;
        let item = enc_item(ps[0]);
        let tail: Seq<char> = if ps.len() == 1 {
            Seq::empty()
        } else {
            seq![','] + enc_items(ps.skip(1))
        };
        assert(s =~= item + tail);
        assert(s.len() > 0 && s[0] == '"');
        // The name field.
        let after_quote = esc(name) + seq!['"'] + (seq![':', '"'] + esc(val) + seq!['"'] + tail);
        assert(s.skip(1) =~= after_quote);
        lemma_dec_qstr_esc(name, seq![':', '"'] + esc(val) + seq!['"'] + tail);
        let n1: int = esc(name).len() as int + 1;
        assert(dec_qstr(s.skip(1)) == Some((name, n1)));
        let after_name: int = 1 + n1;
        assert(s[after_name] == ':');
        assert(s[after_name + 1] == '"');
        // The value field.
        let after_vq = esc(val) + seq!['"'] + tail;
        assert(s.skip(after_name + 2) =~= after_vq);
        lemma_dec_qstr_esc(val, tail);
        let n2: int = esc(val).len() as int + 1;
        assert(dec_qstr(s.skip(after_name + 2)) == Some((val, n2)));
        let end: int = after_name + 2 + n2;
        assert(end == item.len());
        if ps.len() == 1 {
            assert(end == s.len());
            assert(dec_items(s) == Some(seq![(name, val)]));
            assert(seq![(name, val)] =~= ps);
        } else {
            assert(s[end] == ',');
            assert(s.skip(end + 1) =~= enc_items(ps.skip(1)));
            lemma_dec_items_enc(ps.skip(1));
            assert(ps.skip(1).len() > 0);
            assert(dec_items(s) == Some(seq![(name, val)] + ps.skip(1)));
            assert(seq![(name, val)] + ps.skip(1) =~= ps);
        }
    }
}

/// The views of a list of string pairs.
pub open spec fn pair_views(v: Seq<(String, String)>) -> Seq<(Seq<char>, Seq<char>)> {
    Seq::new(v.len(), |i: int| (v[i].0@, v[i].1@))
}

/// Appends the escaped body of one field.
fn esc_append(out: &mut String, s: &String)
    ensures
        final(out)@ == old(out)@ + esc(s@),
{
    let n = s.as_str().unicode_len();
    let mut i: usize = 0;
    proof {
        assert(old(out)@ + esc(s@.take(0)) =~= old(out)@);
    }
    while i < n
        invariant
            0 <= i <= n,
            n == s@.len(),
            out@ == old(out)@ + esc(s@.take(i as int)),
        decreases n - i,
    {
        let c = s.as_str().get_char(i);
        proof {
            assert(s@.take(i + 1).drop_last() =~= s@.take(i as int));
            assert(s@.take(i + 1).last() == s@[i as int]);
        }
        if c == '"' {
            out.push('\\');
            out.push('"');
        } else if c == '\\' {
            out.push('\\');
            out.push('\\');
        } else if c == '\n' {
            out.push('\\');
            out.push('n');
        } else if c == '\r' {
            out.push('\\');
            out.push('r');
        } else if c == '\t' {
            out.push('\\');
            out.push('t');
        } else {
            out.push(c);
        }
        proof {
            assert(out@ =~= old(out)@ + esc(s@.take(i + 1)));
        }
        i += 1;
    }
    proof {
        assert(s@.take(n as int) =~= s@);
    }
}

/// Encodes the visited-step pairs into the persisted data field.
pub fn encode_pairs(pairs: &Vec<(String, String)>) -> (r: String)
    ensures
        r@ == enc_pairs(pair_views(pairs@)),
{
    let ghost ps = pair_views(pairs@);
    let mut out = String::new();
    out.push('{');
    let n = pairs.len();
    let mut i: usize = 0;
    proof {
        assert(out@ =~= seq!['{'] + enc_items(ps.take(0)));
    }
    while i < n
        invariant
            0 <= i <= n,
            n == pairs@.len(),
            ps == pair_views(pairs@),
            out@ == seq!['{'] + enc_items(ps.take(i as int)),
        decreases n - i,
    {
        proof {
            assert(ps.take(i + 1).drop_last() =~= ps.take(i as int));
            assert(ps.take(i + 1).last() == ps[i as int]);
            assert(ps[i as int] == (pairs@[i as int].0@, pairs@[i as int].1@));
        }
        if i > 0 {
            out.push(',');
        }
        out.push('"');
        esc_append(&mut out, &pairs[i].0);
        out.push('"');
        out.push(':');
        out.push('"');
        esc_append(&mut out, &pairs[i].1);
        out.push('"');
        proof {
            if i == 0 {
                assert(enc_items(ps.take(1)) == enc_item(ps[0]));
            }
            assert(out@ =~= seq!['{'] + enc_items(ps.take(i + 1)));
        }
        i += 1;
    }
    proof {
        assert(ps.take(n as int) =~= ps);
    }
    out.push('}');
    proof {
        assert(out@ =~= enc_pairs(ps));
    }
    out
}

/// Reads one quoted field starting after its opening quote at `start`;
/// hands back the content and the index just past the closing quote.
fn dec_qstr_exec(s: &str, start: usize) -> (r: Option<(String, usize)>)
    requires
        start <= s@.len(),
    ensures
        match r {
            Some(p) => {
                &&& dec_qstr(s@.skip(start as int)) == Some((p.0@, p.1 - start as int))
                &&& start < p.1 <= s@.len()
            },
            None => dec_qstr(s@.skip(start as int)) is None,
        },
    decreases s@.len() - start,
{
    let n = s.unicode_len();
    if start == n {
        return None;
    }
    let c = s.get_char(start);
    proof {
        assert(s@.skip(start as int)[0] == s@[start as int]);
        assert(s@.skip(start as int).skip(1) =~= s@.skip(start + 1));
        if start + 2 <= n {
            assert(s@.skip(start as int)[1] == s@[start + 1]);
            assert(s@.skip(start as int).skip(2) =~= s@.skip(start + 2));
        }
    }
    if c == '"' {
        return Some((String::new(), start + 1));
    }
    if c == '\\' {
        if start + 1 == n {
            return None;
        }
        let e = s.get_char(start + 1);
        let m: char = if e == '"' || e == '\\' {
            e
        } else if e == 'n' {
            '\n'
        } else if e == 'r' {
            '\r'
        } else if e == 't' {
            '\t'
        } else {
            return None;
        };
        match dec_qstr_exec(s, start + 2) {
            None => None,
            Some((rest, end)) => {
                let mut out = String::new();
                out.push(m);
                out.append(rest.as_str());
                proof {
                    assert(out@ =~= seq![m] + rest@);
                }
                Some((out, end))
            },
        }
    } else {
        match dec_qstr_exec(s, start + 1) {
            None => None,
            Some((rest, end)) => {
                let mut out = String::new();
                out.push(c);
                out.append(rest.as_str());
                proof {
                    assert(out@ =~= seq![c] + rest@);
                }
                Some((out, end))
            },
        }
    }
}

/// Reads the comma-separated pair list from `start` to the end of the
/// input.
fn dec_items_exec(s: &str, start: usize) -> (r: Option<Vec<(String, String)>>)
    requires
        start <= s@.len(),
    ensures
        match r {
            Some(v) => dec_items(s@.skip(start as int)) == Some(pair_views(v@)),
            None => dec_items(s@.skip(start as int)) is None,
        },
    decreases s@.len() - start,
{
    let n = s.unicode_len();
    if start == n {
        let v: Vec<(String, String)> = Vec::new();
        proof {
            assert(pair_views(v@) =~= Seq::<(Seq<char>, Seq<char>)>::empty());
        }
        return Some(v);
    }
    proof {
        assert(s@.skip(start as int)[0] == s@[start as int]);
        assert(s@.skip(start as int).skip(1) =~= s@.skip(start + 1));
    }
    if s.get_char(start) != '"' {
        return None;
    }
    let nr = dec_qstr_exec(s, start + 1);
    match nr {
        None => None,
        Some((name, n_end)) => {
            let ghost rel = s@.skip(start as int);
            let ghost nrel = n_end - (start + 1);
            proof {
                assert(dec_qstr(rel.skip(1)) == Some((name@, nrel)));
            }
            if n - n_end < 2 {
                return None;
            }
            proof {
                assert(rel[1 + nrel] == s@[n_end as int]);
                assert(rel[1 + nrel + 1] == s@[n_end + 1]);
                assert(rel.skip(1 + nrel + 2) =~= s@.skip(n_end + 2));
            }
            if !(s.get_char(n_end) == ':' && s.get_char(n_end + 1) == '"') {
                return None;
            }
            let vr = dec_qstr_exec(s, n_end + 2);
            match vr {
                None => None,
                Some((val, v_end)) => {
                    let ghost vrel = v_end - (n_end + 2);
                    proof {
                        assert(dec_qstr(rel.skip(1 + nrel + 2)) == Some((val@, vrel)));
                        assert(1 + nrel + 2 + vrel == v_end - start);
                    }
                    if v_end == n {
                        let mut v: Vec<(String, String)> = Vec::new();
                        v.push((name, val));
                        proof {
                            assert(pair_views(v@) =~= seq![(name@, val@)]);
                        }
                        return Some(v);
                    }
                    proof {
                        assert(rel[v_end - start] == s@[v_end as int]);
                        assert(rel.skip(v_end - start + 1) =~= s@.skip(v_end + 1));
                    }
                    if s.get_char(v_end) != ',' {
                        return None;
                    }
                    match dec_items_exec(s, v_end + 1) {
                        None => None,
                        Some(rest) => {
                            if rest.len() == 0 {
                                proof {
                                    assert(pair_views(rest@).len() == 0);
                                }
                                return None;
                            }
                            let mut v = rest;
                            v.insert(0, (name, val));
                            proof {
                                assert(pair_views(v@) =~= seq![(name@, val@)] + pair_views(
                                    v@.skip(1),
                                ));
                                assert(v@.skip(1) =~= v@.subrange(1, v@.len() as int));
                                assert(pair_views(v@.skip(1)) =~= pair_views(v@).skip(1));
                            }
                            Some(v)
                        },
                    }
                },
            }
        },
    }
}

/// Decodes a persisted data field, exactly: only what `encode_pairs`
/// shapes can produce is accepted.
pub fn decode_pairs(s: &str) -> (r: Option<Vec<(String, String)>>)
    ensures
        match r {
            Some(v) => dec_pairs(s@) == Some(pair_views(v@)),
            None => dec_pairs(s@) is None,
        },
{
    let n = s.unicode_len();
    if n < 2 {
        return None;
    }
    if s.get_char(0) != '{' || s.get_char(n - 1) != '}' {
        return None;
    }
    let mid = s.substring_char(1, n - 1);
    proof {
        assert(mid@ == s@.subrange(1, n - 1));
    }
    let r = dec_items_exec(mid, 0);
    proof {
        assert(mid@.skip(0) =~= mid@);
    }
    r
}

/// Decoding inverts encoding: the persisted data field reads back to
/// exactly the pairs that were stored.
pub proof fn lemma_codec_round_trip(ps: Seq<(Seq<char>, Seq<char>)>)
    ensures
        dec_pairs(enc_pairs(ps)) == Some(ps),
{
    let s = enc_pairs(ps);
    assert(s.len() >= 2);
    assert(s[0] == '{');
    assert(s.last() == '}');
    assert(s.subrange(1, s.len() - 1) =~= enc_items(ps));
    lemma_dec_items_enc(ps);
}

} // verus!
