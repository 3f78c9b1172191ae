//! Topic-name normalization: the raw text a user types becomes a sorted,
//! de-duplicated list of bare subreddit names. Newlines become spaces, the
//! input is trimmed, whitespace runs collapse, the result splits on spaces,
//! each name loses its leading "r/" marker, and the names are ordered with
//! repeats dropped.

use vstd::prelude::*;
use vstd::string::StrSliceExecFns;
use vstd::string::StringExecFns;

use crate::textfmt::{
    is_ws, is_ws_char, lemma_lex_antisym, lemma_lex_total, lemma_lex_trans, lex_lt, str_lt,
};

verus! {

/// A name with its leading "r/" marker stripped; an occurrence anywhere
/// else is part of the name and stays.
pub open spec fn strip_marker(s: Seq<char>) -> Seq<char> {
    if s.len() >= 2 && s[0] == 'r' && s[1] == '/' {
        s.skip(2)
    } else {
        s
    }
}

/// Each field with its leading marker stripped.
pub open spec fn strip_all(ts: Seq<Seq<char>>) -> Seq<Seq<char>> {
    Seq::new(ts.len(), |i: int| strip_marker(ts[i]))
}

/// The input with every newline turned into a space.
pub open spec fn nl_to_space(s: Seq<char>) -> Seq<char>
    decreases s.len(),
{
    if s.len() == 0 {
        s
    } else {
        seq![if s[0] == '\n' { ' ' } else { s[0] }] + nl_to_space(s.skip(1))
    }
}

pub open spec fn trim_front(s: Seq<char>) -> Seq<char>
    decreases s.len(),
{
    if s.len() > 0 && is_ws_char(s[0]) {
        trim_front(s.skip(1))
    } else {
        s
    }
}

pub open spec fn trim_back(s: Seq<char>) -> Seq<char>
    decreases s.len(),
{
    if s.len() > 0 && is_ws_char(s.last()) {
        trim_back(s.drop_last())
    } else {
        s
    }
}

/// The input without leading and trailing whitespace.
pub open spec fn trim_spec(s: Seq<char>) -> Seq<char> {
    trim_back(trim_front(s))
}

/// Whitespace runs of two or more collapse to a single space; a lone
/// whitespace character stays as it is.
pub open spec fn collapse_ws(s: Seq<char>) -> Seq<char>
    decreases s.len(), 0int,
{
    if s.len() == 0 {
        s
    } else if is_ws_char(s[0]) && s.len() >= 2 && is_ws_char(s[1]) {
        collapse_run(s.skip(1))
    } else {
        seq![s[0]] + collapse_ws(s.skip(1))
    }
}

/// Inside a whitespace run that will come out as one space: drop the rest
/// of the run, emit the space, and continue.
pub open spec fn collapse_run(s: Seq<char>) -> Seq<char>
    decreases s.len(), 1int,
{
    if s.len() > 0 && is_ws_char(s[0]) {
        collapse_run(s.skip(1))
    } else {
        seq![' '] + collapse_ws(s)
    }
}

/// The fields between single spaces; adjacent or outer spaces produce
/// empty fields, and an empty input is one empty field.
pub open spec fn split_sp(s: Seq<char>) -> Seq<Seq<char>>
    decreases s.len(),
{
    if s.len() == 0 {
        seq![s]
    } else if s[0] == ' ' {
        seq![Seq::<char>::empty()] + split_sp(s.skip(1))
    } else {
        let rest = split_sp(s.skip(1));
        seq![seq![s[0]] + rest[0]] + rest.skip(1)
    }
}

pub proof fn lemma_split_sp_len(s: Seq<char>)
    ensures
        split_sp(s).len() >= 1,
    decreases s.len(),
{
    if s.len() > 0 {
        lemma_split_sp_len(s.skip(1));
    }
}

/// The whole cleaning pipeline, before ordering: the fields of the cleaned
/// input.
pub open spec fn tokens_spec(s: Seq<char>) -> Seq<Seq<char>> {
    strip_all(split_sp(collapse_ws(trim_spec(nl_to_space(s)))))
}

/// The views of a list of strings.
pub open spec fn views_of(v: Seq<String>) -> Seq<Seq<char>> {
    Seq::new(v.len(), |i: int| v[i]@)
}

/// Strictly ascending in lexicographic order — sorted, with no repeats.
pub open spec fn strict_sorted(vs: Seq<Seq<char>>) -> bool {
    forall|i: int, j: int| 0 <= i < j < vs.len() ==> lex_lt(#[trigger] vs[i], #[trigger] vs[j])
}


/// The normal form is unique: two strictly sorted lists with the same
/// members are the same list, so the contract of `parse_subreddits` pins
/// its result completely.
pub proof fn lemma_normal_form_unique(a: Seq<Seq<char>>, b: Seq<Seq<char>>)
    requires
        strict_sorted(a),
        strict_sorted(b),
        forall|x: Seq<char>| a.contains(x) <==> b.contains(x),
    ensures
        a == b,
    decreases a.len(),
{
    if a.len() == 0 {
        if b.len() > 0 {
            assert(b.contains(b[0]));
            assert(a.contains(b[0]));
            assert(false);
        }
        assert(a =~= b);
    } else {
        assert(a.contains(a[0]));
        assert(b.contains(a[0]));
        let j = choose|j: int| 0 <= j < b.len() && b[j] == a[0];
        if j > 0 {
            assert(b.contains(b[0]));
            assert(a.contains(b[0]));
            let k = choose|k: int| 0 <= k < a.len() && a[k] == b[0];
            if k > 0 {
                assert(lex_lt(a[0], a[k]));
                assert(lex_lt(b[0], b[j]));
                lemma_lex_trans(a[0], b[0], a[0]);
                lemma_lex_antisym(a[0], b[0]);
                assert(false);
            } else {
                assert(lex_lt(b[0], b[j]));
                assert(b[0] == a[0] && b[j] == a[0]);
                assert(false);
            }
        }
        assert(b[0] == a[0]);
        let at = a.skip(1);
        let bt = b.skip(1);
        assert(forall|m: int| 0 <= m < at.len() ==> at[m] == a[m + 1]);
        assert(forall|m: int| 0 <= m < bt.len() ==> bt[m] == b[m + 1]);
        assert(strict_sorted(at));
        assert(strict_sorted(bt));
        assert forall|x: Seq<char>| at.contains(x) implies bt.contains(x) by {
            let m = choose|m: int| 0 <= m < at.len() && at[m] == x;
            assert(a[m + 1] == x);
            assert(lex_lt(a[0], x));
            assert(a.contains(x));
            assert(b.contains(x));
            let w = choose|w: int| 0 <= w < b.len() && b[w] == x;
            if w == 0 {
                assert(x == a[0]);
                assert(false);
            }
            assert(bt[w - 1] == x);
        }
        assert forall|x: Seq<char>| bt.contains(x) implies at.contains(x) by {
            let m = choose|m: int| 0 <= m < bt.len() && bt[m] == x;
            assert(b[m + 1] == x);
            assert(lex_lt(b[0], x));
            assert(b.contains(x));
            assert(a.contains(x));
            let w = choose|w: int| 0 <= w < a.len() && a[w] == x;
            if w == 0 {
                assert(x == b[0]);
                assert(false);
            }
            assert(at[w - 1] == x);
        }
        lemma_normal_form_unique(at, bt);
        assert(at.len() == bt.len());
        assert(a.len() == b.len());
        assert forall|i: int| 0 <= i < a.len() implies a[i] == b[i] by {
            if i > 0 {
                assert(a[i] == at[i - 1]);
                assert(bt[i - 1] == b[i]);
                assert(at[i - 1] == bt[i - 1]);
            }
        }
        assert(a =~= b);
    }
}

fn strip_marker_exec(t: &String) -> (r: String)
    ensures
        r@ == strip_marker(t@),
{
    let n = t.as_str().unicode_len();
    if n >= 2 && t.as_str().get_char(0) == 'r' && t.as_str().get_char(1) == '/' {
        let rest = t.as_str().substring_char(2, n);
        proof {
            assert(rest@ =~= t@.skip(2));
        }
        rest.to_owned()
    } else {
        t.clone()
    }
}

fn nl_to_space_exec(s: &String) -> (r: String)
    ensures
        r@ == nl_to_space(s@),
{
    let n = s.as_str().unicode_len();
    let mut out = String::new();
    let mut i: usize = 0;
    proof {
        assert(s@.skip(0) =~= s@);
    }
    while i < n
        invariant
            0 <= i <= n,
            n == s@.len(),
            nl_to_space(s@) == out@ + nl_to_space(s@.skip(i as int)),
        decreases n - i,
    {
        let c = s.as_str().get_char(i);
        proof {
            assert(s@.skip(i as int)[0] == s@[i as int]);
            assert(s@.skip(i as int).skip(1) =~= s@.skip(i + 1));
        }
        if c == '\n' {
            out.push(' ');
        } else {
            out.push(c);
        }
        i += 1;
    }
    proof {
        assert(s@.skip(n as int).len() == 0);
        assert(out@ =~= out@ + nl_to_space(s@.skip(n as int)));
    }
    out
}

proof fn lemma_trim_front_at(s: Seq<char>, a: int)
    requires
        0 <= a <= s.len(),
        forall|k: int| 0 <= k < a ==> is_ws_char(s[k]),
        a == s.len() || !is_ws_char(s[a]),
    ensures
        trim_front(s) == s.skip(a),
    decreases a,
{
    if a == 0 {
        assert(s.skip(0) =~= s);
    } else {
        assert(is_ws_char(s[0]));
        let t = s.skip(1);
        assert(forall|k: int| 0 <= k < a - 1 ==> t[k] == s[k + 1]);
        if a - 1 < t.len() {
            assert(t[a - 1] == s[a]);
        }
        lemma_trim_front_at(t, a - 1);
        assert(t.skip(a - 1) =~= s.skip(a));
    }
}

proof fn lemma_trim_back_at(s: Seq<char>, b: int)
    requires
        0 <= b <= s.len(),
        forall|k: int| b <= k < s.len() ==> is_ws_char(s[k]),
        b == 0 || !is_ws_char(s[b - 1]),
    ensures
        trim_back(s) == s.take(b),
    decreases s.len() - b,
{
    if b == s.len() {
        assert(s.take(b) =~= s);
    } else {
        assert(is_ws_char(s.last()));
        let t = s.drop_last();
        assert(forall|k: int| 0 <= k < t.len() ==> t[k] == s[k]);
        lemma_trim_back_at(t, b);
        assert(t.take(b) =~= s.take(b));
    }
}

fn trim_exec(s: &String) -> (r: String)
    ensures
        r@ == trim_spec(s@),
{
    let n = s.as_str().unicode_len();
    let mut a: usize = 0;
    while a < n && is_ws(s.as_str().get_char(a))
        invariant
            0 <= a <= n,
            n == s@.len(),
            forall|k: int| 0 <= k < a ==> is_ws_char(s@[k]),
        decreases n - a,
    {
        a += 1;
    }
    proof {
        lemma_trim_front_at(s@, a as int);
    }
    let ghost mid = s@.skip(a as int);
    let mut b: usize = n;
    while b > a && is_ws(s.as_str().get_char(b - 1))
        invariant
            a <= b <= n,
            n == s@.len(),
            forall|k: int| b <= k < n ==> is_ws_char(s@[k]),
        decreases b,
    {
        b -= 1;
    }
    proof {
        assert(forall|k: int| b - a <= k < mid.len() ==> mid[k] == s@[k + a]);
        if b > a {
            assert(mid[b - a - 1] == s@[b - 1]);
        }
        lemma_trim_back_at(mid, b - a);
        assert(mid.take(b - a) =~= s@.subrange(a as int, b as int));
    }
    let piece = s.as_str().substring_char(a, b);
    piece.to_owned()
}

fn collapse_ws_exec(s: &String) -> (r: String)
    ensures
        r@ == collapse_ws(s@),
{
    let n = s.as_str().unicode_len();
    let mut out = String::new();
    let mut i: usize = 0;
    proof {
        assert(s@.skip(0) =~= s@);
    }
    while i < n
        invariant
            0 <= i <= n,
            n == s@.len(),
            collapse_ws(s@) == out@ + collapse_ws(s@.skip(i as int)),
        decreases n - i,
    {
        let c = s.as_str().get_char(i);
        proof {
            assert(s@.skip(i as int)[0] == s@[i as int]);
            if i + 1 < n {
                assert(s@.skip(i as int)[1] == s@[i + 1]);
            }
            assert(s@.skip(i as int).skip(1) =~= s@.skip(i + 1));
        }
        if is_ws(c) && i + 1 < n && is_ws(s.as_str().get_char(i + 1)) {
            // A run of at least two: swallow it and emit one space.
            let ghost run_val = collapse_ws(s@.skip(i as int));
            let mut j = i + 1;
            proof {
                assert(run_val == collapse_run(s@.skip(j as int)));
            }
            while j < n && is_ws(s.as_str().get_char(j))
                invariant
                    i < j <= n,
                    n == s@.len(),
                    run_val == collapse_run(s@.skip(j as int)),
                decreases n - j,
            {
                proof {
                    assert(s@.skip(j as int)[0] == s@[j as int]);
                    assert(s@.skip(j as int).skip(1) =~= s@.skip(j + 1));
                }
                j += 1;
            }
            proof {
                if j < n {
                    assert(s@.skip(j as int)[0] == s@[j as int]);
                    assert(!is_ws_char(s@.skip(j as int)[0]));
                }
                assert(run_val == seq![' '] + collapse_ws(s@.skip(j as int)));
            }
            out.push(' ');
            i = j;
        } else {
            out.push(c);
            i += 1;
        }
    }
    proof {
        assert(s@.skip(n as int).len() == 0);
        assert(collapse_ws(s@.skip(n as int)) =~= Seq::<char>::empty());
        assert(out@ =~= out@ + collapse_ws(s@.skip(n as int)));
    }
    out
}

fn split_sp_exec(s: &String) -> (r: Vec<String>)
    ensures
        views_of(r@) == split_sp(s@),
{
    let n = s.as_str().unicode_len();
    let mut tokens: Vec<String> = Vec::new();
    let mut cur = String::new();
    let mut i: usize = 0;
    proof {
        assert(s@.skip(0) =~= s@);
        lemma_split_sp_len(s@);
        let tail = split_sp(s@);
        assert(split_sp(s@) =~~= views_of(tokens@) + seq![cur@ + tail[0]] + tail.skip(1));
    }
    while i < n
        invariant
            0 <= i <= n,
            n == s@.len(),
            split_sp(s@) == views_of(tokens@) + seq![cur@ + split_sp(s@.skip(i as int))[0]]
                + split_sp(s@.skip(i as int)).skip(1),
        decreases n - i,
    {
        let c = s.as_str().get_char(i);
        proof {
            assert(s@.skip(i as int)[0] == s@[i as int]);
            assert(s@.skip(i as int).skip(1) =~= s@.skip(i + 1));
            lemma_split_sp_len(s@.skip(i + 1));
        }
        let ghost tail = split_sp(s@.skip(i as int));
        let ghost tail2 = split_sp(s@.skip(i + 1));
        if c == ' ' {
            proof {
                assert(tail == seq![Seq::<char>::empty()] + tail2);
                assert(tail[0] =~= Seq::<char>::empty());
                assert(cur@ + tail[0] =~= cur@);
                assert(tail.skip(1) =~= tail2);
            }
            tokens.push(cur);
            cur = String::new();
            proof {
                assert(views_of(tokens@) =~= views_of(tokens@.drop_last()).push(
                    tokens@.last()@,
                ));
                assert(tail2 =~= seq![tail2[0]] + tail2.skip(1));
                assert(split_sp(s@) =~~= views_of(tokens@) + seq![cur@ + tail2[0]]
                    + tail2.skip(1));
            }
        } else {
            proof {
                assert(tail == seq![seq![s@[i as int]] + tail2[0]] + tail2.skip(1));
                assert(tail[0] == seq![s@[i as int]] + tail2[0]);
                assert(tail.skip(1) =~= tail2.skip(1));
            }
            let ghost oc = cur@;
            cur.push(c);
            proof {
                assert(cur@ + tail2[0] =~= oc + tail[0]);
                assert(split_sp(s@) =~~= views_of(tokens@) + seq![cur@ + tail2[0]]
                    + tail2.skip(1));
            }
        }
        i += 1;
    }
    proof {
        assert(s@.skip(n as int).len() == 0);
        let tail = split_sp(s@.skip(n as int));
        assert(tail =~~= seq![Seq::<char>::empty()]);
        assert(cur@ + tail[0] =~= cur@);
    }
    tokens.push(cur);
    proof {
        assert(views_of(tokens@) =~= views_of(tokens@.drop_last()).push(tokens@.last()@));
        assert(views_of(tokens@) =~~= split_sp(s@));
    }
    tokens
}

/// Puts one name into its place in a strictly sorted list; a name already
/// present changes nothing.
fn insert_sorted_unique(out: &mut Vec<String>, tok: String)
    requires
        strict_sorted(views_of(old(out)@)),
    ensures
        strict_sorted(views_of(final(out)@)),
        forall|x: Seq<char>|
            views_of(final(out)@).contains(x) <==> (views_of(old(out)@).contains(x) || x
                == tok@),
{
    let n = out.len();
    let mut p: usize = 0;
    let mut stop = false;
    while !stop && p < n
        invariant
            0 <= p <= n,
            n == out@.len(),
            out@ == old(out)@,
            forall|k: int| 0 <= k < p ==> lex_lt(#[trigger] views_of(out@)[k], tok@),
            stop ==> p < n && !lex_lt(views_of(out@)[p as int], tok@),
        decreases n - p, (if stop { 0int } else { 1int }),
    {
        if str_lt(&out[p], &tok) {
            proof {
                assert(views_of(out@)[p as int] == out@[p as int]@);
            }
            p += 1;
        } else {
            stop = true;
        }
    }
    if p < n && out[p].eq(&tok) {
        proof {
            assert(views_of(out@)[p as int] == tok@);
            assert(views_of(out@).contains(tok@));
        }
        return ;
    }
    proof {
        if p < n {
            assert(views_of(out@)[p as int] != tok@);
            assert(!lex_lt(views_of(out@)[p as int], tok@));
            lemma_lex_total(views_of(out@)[p as int], tok@);
            assert(lex_lt(tok@, views_of(out@)[p as int]));
        }
    }
    let ghost ovs = views_of(out@);
    let ghost otok = tok@;
    out.insert(p, tok);
    proof {
        let nvs = views_of(out@);
        assert(nvs.len() == ovs.len() + 1);
        assert(nvs[p as int] == otok);
        assert(forall|k: int| 0 <= k < p ==> nvs[k] == ovs[k]);
        assert(forall|k: int| p < k < nvs.len() ==> nvs[k] == ovs[k - 1]);
        assert forall|m: int| p <= m < ovs.len() implies lex_lt(otok, #[trigger] ovs[m]) by {
            if m > p {
                lemma_lex_trans(otok, ovs[p as int], ovs[m]);
            }
        }
        assert forall|a: int, b: int| 0 <= a < b < nvs.len() implies lex_lt(
            #[trigger] nvs[a],
            #[trigger] nvs[b],
        ) by {
            if b == p {
                assert(nvs[a] == ovs[a] && lex_lt(ovs[a], otok));
            } else if a == p {
                assert(nvs[b] == ovs[b - 1] && lex_lt(otok, ovs[b - 1]));
            } else if a < p && b > p {
                assert(nvs[a] == ovs[a] && nvs[b] == ovs[b - 1]);
                lemma_lex_trans(ovs[a], otok, ovs[b - 1]);
            } else {
                assert(lex_lt(ovs[if a < p { a } else { a - 1 }], ovs[if b < p { b } else {
                    b - 1
                }]));
            }
        }
        assert forall|x: Seq<char>| nvs.contains(x) implies (ovs.contains(x) || x == otok) by {
            let k = choose|k: int| 0 <= k < nvs.len() && nvs[k] == x;
            if k != p {
                let w = if k < p { k } else { k - 1 };
                assert(ovs[w] == x);
            }
        }
        assert forall|x: Seq<char>| ovs.contains(x) || x == otok implies nvs.contains(x) by {
            if x == otok {
                assert(nvs[p as int] == x);
            } else {
                let k = choose|k: int| 0 <= k < ovs.len() && ovs[k] == x;
                let w = if k < p { k } else { k + 1 };
                assert(nvs[w] == x);
            }
        }
    }
}


/// A strictly sorted list of names is no longer than any list that holds
/// at least the same names: ordering and de-duplicating never grows a
/// token list.
pub proof fn lemma_sorted_unique_len(a: Seq<Seq<char>>, b: Seq<Seq<char>>)
    requires
        strict_sorted(a),
        forall|x: Seq<char>| a.contains(x) ==> b.contains(x),
    ensures
        a.len() <= b.len(),
{
    broadcast use vstd::set::group_set_axioms;
    broadcast use vstd::seq_lib::seq_to_set_is_finite;

    assert(a.no_duplicates()) by {
        assert forall|i: int, j: int|
            0 <= i < a.len() && 0 <= j < a.len() && i != j implies a[i] != a[j] by {
            if i < j {
                assert(lex_lt(a[i], a[j]));
            } else {
                assert(lex_lt(a[j], a[i]));
            }
        }
    }
    a.unique_seq_to_set();
    b.lemma_cardinality_of_set();
    assert(a.to_set().subset_of(b.to_set())) by {
        assert forall|x: Seq<char>| a.to_set().contains(x) implies b.to_set().contains(x) by {
            assert(a.contains(x));
            assert(b.contains(x));
        }
    }
    vstd::set_lib::lemma_len_subset(a.to_set(), b.to_set());
}

/// Splits, cleans, sorts and de-duplicates the topic names in a payload:
/// the result is strictly sorted and holds exactly the cleaned fields.
pub fn parse_subreddits(subreddits: &str) -> (r: Vec<String>)
    ensures
        strict_sorted(views_of(r@)),
        forall|x: Seq<char>|
            views_of(r@).contains(x) <==> tokens_spec(subreddits@).contains(x),
{
    let cleaned = nl_to_space_exec(&subreddits.to_owned());
    let cleaned = trim_exec(&cleaned);
    let cleaned = collapse_ws_exec(&cleaned);
    let tokens = split_sp_exec(&cleaned);
    let ghost toks = strip_all(views_of(tokens@));
    let mut out: Vec<String> = Vec::new();
    let tn = tokens.len();
    let mut i: usize = 0;
    while i < tn
        invariant
            0 <= i <= tn,
            tn == tokens@.len(),
            toks == strip_all(views_of(tokens@)),
            toks == tokens_spec(subreddits@),
            strict_sorted(views_of(out@)),
            forall|x: Seq<char>|
                views_of(out@).contains(x) <==> (exists|k: int| 0 <= k < i && toks[k] == x),
        decreases tn - i,
    {
        let tok = strip_marker_exec(&tokens[i]);
        proof {
            assert(toks[i as int] == strip_marker(tokens@[i as int]@));
            assert(tok@ == toks[i as int]);
        }
        let ghost before = views_of(out@);
        insert_sorted_unique(&mut out, tok);
        proof {
            assert forall|x: Seq<char>| views_of(out@).contains(x) implies (exists|k: int|
                0 <= k < i + 1 && toks[k] == x) by {
                if before.contains(x) {
                    let k = choose|k: int| 0 <= k < i && toks[k] == x;
                    assert(toks[k] == x);
                } else {
                    assert(toks[i as int] == x);
                }
            }
            assert forall|x: Seq<char>| (exists|k: int| 0 <= k < i + 1 && toks[k] == x)
                implies views_of(out@).contains(x) by {
                let k = choose|k: int| 0 <= k < i + 1 && toks[k] == x;
            }
        }
        i += 1;
    }
    proof {
        assert forall|x: Seq<char>| toks.contains(x) implies (exists|k: int|
            0 <= k < tn && toks[k] == x) by {
        }
    }
    out
}

} // verus!
