//! Links inside document text: `[[name]]` references to other documents,
//! counted per name, and markdown hyperlinks `[text](target)`.
//!
//! Both scans find matches left to right without overlap, each match
//! starting at the leftmost position where one exists.
use vstd::prelude::*;
use crate::text::{chars_eq, chars_of, chars_of_string, string_of};

verus! {

/// The first index at or after `from` that holds `c`, or the length.
pub open spec fn first_of(t: Seq<char>, from: int, c: char) -> int
    decreases t.len() - from,
{
    if from >= t.len() {
        t.len() as int
    } else if t[from] == c {
        from
    } else {
        first_of(t, from + 1, c)
    }
}

/// Where the reference starting at `s` closes: `[[`, at least one character
/// other than `]`, then `]]`. The result is the index of the first `]`.
pub open spec fn reference_close(t: Seq<char>, s: int) -> Option<int> {
    if 0 <= s && s + 1 < t.len() && t[s] == '[' && t[s + 1] == '[' {
        let k = first_of(t, s + 2, ']');
        if k > s + 2 && k + 1 < t.len() && t[k + 1] == ']' {
            Some(k)
        } else {
            None
        }
    } else {
        None
    }
}

/// The names of the references in `t` from index `from` on, kept when `valid` holds them.
pub open spec fn references_from(t: Seq<char>, from: int, valid: Seq<Seq<char>>) -> Seq<Seq<char>>
    decreases t.len() - from,
{
    if from < 0 || from >= t.len() {
        Seq::empty()
    } else {
        match reference_close(t, from) {
            Some(k) => {
                let name = t.subrange(from + 2, k);
                let rest = references_from(t, k + 2, valid);
                if valid.contains(name) {
                    seq![name] + rest
                } else {
                    rest
                }
            },
            None => references_from(t, from + 1, valid),
        }
    }
}

/// Where the hyperlink starting at `s` ends: `[`, text without `]`, `](`,
/// a target without `)`, then `)`. The result is the index after the `)`.
pub open spec fn hyperlink_end(t: Seq<char>, s: int) -> Option<int> {
    if 0 <= s && s < t.len() && t[s] == '[' {
        let k = first_of(t, s + 1, ']');
        if k > s + 1 && k + 1 < t.len() && t[k + 1] == '(' {
            let m = first_of(t, k + 2, ')');
            if m > k + 2 && m < t.len() {
                Some(m + 1)
            } else {
                None
            }
        } else {
            None
        }
    } else {
        None
    }
}

pub open spec fn hyperlinks_from(t: Seq<char>, from: int) -> nat
    decreases t.len() - from,
{
    if from < 0 || from >= t.len() {
        0
    } else {
        match hyperlink_end(t, from) {
            Some(e) => 1 + hyperlinks_from(t, e),
            None => hyperlinks_from(t, from + 1),
        }
    }
}

/// The distinct names of `refs`, in order of first appearance.
pub open spec fn distinct_names(refs: Seq<Seq<char>>) -> Seq<Seq<char>>
    decreases refs.len(),
{
    if refs.len() == 0 {
        Seq::empty()
    } else {
        let p = distinct_names(refs.drop_last());
        if p.contains(refs.last()) {
            p
        } else {
            p.push(refs.last())
        }
    }
}

/// How often `x` occurs in `refs`.
pub open spec fn occurrences(refs: Seq<Seq<char>>, x: Seq<char>) -> nat
    decreases refs.len(),
{
    if refs.len() == 0 {
        0
    } else {
        occurrences(refs.drop_last(), x) + if refs.last() == x {
            1nat
        } else {
            0nat
        }
    }
}

pub open spec fn string_views(s: Seq<String>) -> Seq<Seq<char>> {
    s.map_values(|x: String| x@)
}

fn find_first(t: &Vec<char>, from: usize, c: char) -> (r: usize)
    requires
        from <= t@.len(),
    ensures
        r == first_of(t@, from as int, c),
        from <= r <= t@.len(),
{
    let mut k: usize = from;
    while k < t.len() && t[k] != c
        invariant
            from <= k <= t@.len(),
            first_of(t@, from as int, c) == first_of(t@, k as int, c),
        decreases t@.len() - k,
    {
        k += 1;
    }
    k
}

fn reference_close_at(t: &Vec<char>, s: usize) -> (r: Option<usize>)
    requires
        s < t@.len(),
    ensures
        match r {
            Some(k) => reference_close(t@, s as int) == Some(k as int),
            None => reference_close(t@, s as int) is None,
        },
{
    let n = t.len();
    if s + 1 < n && t[s] == '[' && t[s + 1] == '[' {
        let k = find_first(t, s + 2, ']');
        if k > s + 2 && k < n && k + 1 < n && t[k + 1] == ']' {
            return Some(k);
        }
    }
    None
}

fn contains_name(valid: &Vec<String>, name: &Vec<char>) -> (r: bool)
    ensures
        r == string_views(valid@).contains(name@),
{
    let mut i: usize = 0;
    while i < valid.len()
        invariant
            i <= valid@.len(),
            forall|j: int| 0 <= j < i ==> valid@[j]@ != name@,
        decreases valid@.len() - i,
    {
        if chars_eq(&chars_of_string(&valid[i]), name) {
            assert(string_views(valid@)[i as int] == name@);
            return true;
        }
        i += 1;
    }
    assert(!string_views(valid@).contains(name@)) by {
        if string_views(valid@).contains(name@) {
            let j = choose|j: int| 0 <= j < valid@.len() && string_views(valid@)[j] == name@;
            assert(valid@[j]@ == name@);
        }
    }
    false
}

fn sub_chars(t: &Vec<char>, from: usize, to: usize) -> (r: Vec<char>)
    requires
        from <= to <= t@.len(),
    ensures
        r@ == t@.subrange(from as int, to as int),
{
    let mut out: Vec<char> = Vec::new();
    let mut i: usize = from;
    while i < to
        invariant
            from <= i <= to <= t@.len(),
            out@ == t@.subrange(from as int, i as int),
        decreases to - i,
    {
        out.push(t[i]);
        i += 1;
        assert(out@ =~= t@.subrange(from as int, i as int));
    }
    out
}

/// The names in `[[name]]` references of `content` that are among
/// `valid_nodes`, in order of appearance.
pub fn extract_references(content: &str, valid_nodes: &Vec<String>) -> (r: Vec<String>)
    ensures
        string_views(r@) == references_from(content@, 0, string_views(valid_nodes@)),
{
    let t = chars_of(content);
    let ghost valid = string_views(valid_nodes@);
    let mut out: Vec<String> = Vec::new();
    let mut pos: usize = 0;
    while pos < t.len()
        invariant
            t@ == content@,
            valid == string_views(valid_nodes@),
            pos <= t@.len() + 1,
            string_views(out@) + references_from(t@, pos as int, valid) == references_from(
                t@,
                0,
                valid,
            ),
        decreases t@.len() + 1 - pos,
    {
        let ghost before = string_views(out@);
        match reference_close_at(&t, pos) {
            Some(k) => {
                let name = sub_chars(&t, pos + 2, k);
                let ghost rest = references_from(t@, k + 2, valid);
                if contains_name(valid_nodes, &name) {
                    out.push(string_of(&name));
                    assert(string_views(out@) =~= before.push(name@));
                    assert(before.push(name@) + rest =~= before + (seq![name@] + rest));
                }
                pos = k + 2;
            },
            None => {
                pos = pos + 1;
            },
        }
    }
    assert(string_views(out@) + references_from(t@, pos as int, valid) =~= string_views(out@));
    out
}

proof fn lemma_distinct_names(refs: Seq<Seq<char>>)
    ensures
        distinct_names(refs).no_duplicates(),
        forall|x: Seq<char>| distinct_names(refs).contains(x) <==> refs.contains(x),
        forall|x: Seq<char>| #[trigger] occurrences(refs, x) <= refs.len(),
        forall|x: Seq<char>| !refs.contains(x) ==> #[trigger] occurrences(refs, x) == 0,
    decreases refs.len(),
{
    if refs.len() > 0 {
        let init = refs.drop_last();
        let last = refs.last();
        let p = distinct_names(init);
        lemma_distinct_names(init);
        assert(refs[refs.len() - 1] == last);
        assert forall|x: Seq<char>| refs.contains(x) <==> (init.contains(x) || x == last) by {
            if refs.contains(x) {
                let j = choose|j: int| 0 <= j < refs.len() && refs[j] == x;
                if j < init.len() {
                    assert(init[j] == x);
                }
            }
            if init.contains(x) {
                let j = choose|j: int| 0 <= j < init.len() && init[j] == x;
                assert(refs[j] == x);
            }
        }
        assert forall|x: Seq<char>| #[trigger] occurrences(refs, x) <= refs.len() by {
            assert(occurrences(refs, x) == occurrences(init, x) + if last == x { 1nat } else { 0nat });
        }
        assert forall|x: Seq<char>| !refs.contains(x) implies #[trigger] occurrences(refs, x) == 0 by {
            assert(occurrences(refs, x) == occurrences(init, x) + if last == x { 1nat } else { 0nat });
        }
        if !p.contains(last) {
            let q = p.push(last);
            assert forall|x: Seq<char>| q.contains(x) <==> (p.contains(x) || x == last) by {
                if q.contains(x) {
                    let j = choose|j: int| 0 <= j < q.len() && q[j] == x;
                    if j < p.len() {
                        assert(p[j] == x);
                    }
                }
                if p.contains(x) {
                    let j = choose|j: int| 0 <= j < p.len() && p[j] == x;
                    assert(q[j] == x);
                }
                if x == last {
                    assert(q[p.len() as int] == x);
                }
            }
            assert forall|i: int, j: int| 0 <= i < q.len() && 0 <= j < q.len() && i != j implies q[i]
                != q[j] by {
                if i < p.len() && j < p.len() {
                    assert(q[i] == p[i] && q[j] == p[j]);
                } else if i < p.len() {
                    assert(q[i] == p[i]);
                } else if j < p.len() {
                    assert(q[j] == p[j]);
                }
            }
        }
    }
}

/// Counts the references per name: each distinct name once, in order of
/// first appearance, with the number of times it occurs.
pub fn convert_references_to_topic_counts(references: Vec<String>) -> (r: Vec<(String, u64)>)
    ensures
        r@.len() == distinct_names(string_views(references@)).len(),
        forall|i: int|
            0 <= i < r@.len() ==> {
                &&& (#[trigger] r@[i]).0@ == distinct_names(string_views(references@))[i]
                &&& r@[i].1 == occurrences(string_views(references@), r@[i].0@)
            },
{
    let ghost sv = string_views(references@);
    let mut acc: Vec<(String, u64)> = Vec::new();
    let mut k: usize = 0;
    while k < references.len()
        invariant
            sv == string_views(references@),
            k <= references@.len(),
            acc@.len() == distinct_names(sv.take(k as int)).len(),
            forall|i: int|
                0 <= i < acc@.len() ==> {
                    &&& (#[trigger] acc@[i]).0@ == distinct_names(sv.take(k as int))[i]
                    &&& acc@[i].1 == occurrences(sv.take(k as int), acc@[i].0@)
                },
        decreases references@.len() - k,
    {
        let name = chars_of_string(&references[k]);
        let ghost prefix = sv.take(k as int);
        let ghost next = sv.take(k + 1);
        proof {
            assert(next.drop_last() =~= prefix);
            assert(next.last() == name@);
            lemma_distinct_names(prefix);
        }
        let mut j: usize = 0;
        let mut found = false;
        while !found && j < acc.len()
            invariant
                j <= acc@.len(),
                forall|i: int| 0 <= i < j ==> (#[trigger] acc@[i]).0@ != name@,
                found ==> j < acc@.len() && acc@[j as int].0@ == name@,
            decreases acc@.len() - j + if found { 0int } else { 1int },
        {
            if chars_eq(&chars_of_string(&acc[j].0), &name) {
                found = true;
            } else {
                j += 1;
            }
        }
        let ghost before = acc@;
        if found {
            let (key, count) = acc.remove(j);
            assert(count == occurrences(prefix, name@));
            assert(count <= k);
            acc.insert(j, (key, count + 1));
            assert forall|i: int| 0 <= i < acc@.len() && i != j implies (#[trigger] acc@[i]).0@ != name@ by {
                assert(acc@[i] == before[i]);
                assert(distinct_names(prefix).no_duplicates());
                assert(before[i].0@ == distinct_names(prefix)[i]);
                assert(before[j as int].0@ == distinct_names(prefix)[j as int]);
            }
            assert(distinct_names(prefix).contains(name@)) by {
                assert(distinct_names(prefix)[j as int] == name@);
            }
        } else {
            assert(!distinct_names(prefix).contains(name@)) by {
                if distinct_names(prefix).contains(name@) {
                    let i = choose|i: int| 0 <= i < distinct_names(prefix).len() && distinct_names(prefix)[i] == name@;
                    assert(before[i].0@ == name@);
                }
            }
            acc.push((string_of(&name), 1));
            assert(distinct_names(next) =~= distinct_names(prefix).push(name@));
            assert(occurrences(prefix, name@) == 0) by {
                assert(!prefix.contains(name@));
            }
        }
        k += 1;
    }
    assert(sv.take(references@.len() as int) =~= sv);
    acc
}

fn hyperlink_end_at(t: &Vec<char>, s: usize) -> (r: Option<usize>)
    requires
        s < t@.len(),
    ensures
        match r {
            Some(e) => hyperlink_end(t@, s as int) == Some(e as int) && s < e <= t@.len(),
            None => hyperlink_end(t@, s as int) is None,
        },
{
    let n = t.len();
    if t[s] == '[' {
        let k = find_first(t, s + 1, ']');
        if k > s + 1 && k < n && k + 1 < n && t[k + 1] == '(' {
            let m = find_first(t, k + 2, ')');
            if m > k + 2 && m < n {
                return Some(m + 1);
            }
        }
    }
    None
}

/// The number of markdown hyperlinks `[text](target)` in `content`.
pub fn count_hyperlinks(content: &str) -> (r: u64)
    ensures
        r == hyperlinks_from(content@, 0),
{
    let t = chars_of(content);
    let mut count: u64 = 0;
    let mut pos: usize = 0;
    while pos < t.len()
        invariant
            t@ == content@,
            pos <= t@.len(),
            count <= pos,
            count + hyperlinks_from(t@, pos as int) == hyperlinks_from(t@, 0),
        decreases t@.len() - pos,
    {
        match hyperlink_end_at(&t, pos) {
            Some(e) => {
                count = count + 1;
                pos = e;
            },
            None => {
                pos = pos + 1;
            },
        }
    }
    count
}

} // verus!
