//! Documents as the content repository describes them, and the rule that
//! admits a document into the graph.
use vstd::prelude::*;
use crate::graph::MetadataEntry;
use crate::text::chars_of;

verus! {

/// A file as the repository lists it.
#[derive(Clone, Debug)]
pub struct GithubFile {
    pub name: String,
    pub path: String,
    pub sha: String,
    pub size: usize,
    pub url: String,
    pub download_url: String,
}

/// A fetched document with the metadata derived from it.
#[derive(Clone, Debug)]
pub struct ProcessedFile {
    pub file_name: String,
    pub content: String,
    pub is_public: bool,
    pub metadata: MetadataEntry,
}

/// Unicode white space, as `char::is_whitespace` has it.
pub open spec fn is_white(c: char) -> bool {
    ||| ('\t' <= c && c <= '\r')
    ||| c == ' '
    ||| c == '\u{85}'
    ||| c == '\u{a0}'
    ||| c == '\u{1680}'
    ||| ('\u{2000}' <= c && c <= '\u{200a}')
    ||| c == '\u{2028}'
    ||| c == '\u{2029}'
    ||| c == '\u{202f}'
    ||| c == '\u{205f}'
    ||| c == '\u{3000}'
}

/// The text before the first line feed.
pub open spec fn first_line(s: Seq<char>) -> Seq<char>
    decreases s.len(),
{
    if s.len() == 0 {
        s
    } else if s[0] == '\n' {
        Seq::empty()
    } else {
        seq![s[0]] + first_line(s.drop_first())
    }
}

/// `s` without white space at either end.
pub open spec fn trimmed(s: Seq<char>) -> Seq<char>
    decreases s.len(),
{
    if s.len() > 0 && is_white(s[0]) {
        trimmed(s.drop_first())
    } else if s.len() > 0 && is_white(s.last()) {
        trimmed(s.drop_last())
    } else {
        s
    }
}

/// A document is admitted when its first line, trimmed, reads `public:: true`.
pub open spec fn admits(content: Seq<char>) -> bool {
    trimmed(first_line(content)) == "public:: true"@
}

fn is_white_char(c: char) -> (r: bool)
    ensures
        r == is_white(c),
{
    ('\t' <= c && c <= '\r') || c == ' ' || c == '\u{85}' || c == '\u{a0}' || c == '\u{1680}'
        || ('\u{2000}' <= c && c <= '\u{200a}') || c == '\u{2028}' || c == '\u{2029}'
        || c == '\u{202f}' || c == '\u{205f}' || c == '\u{3000}'
}

proof fn lemma_first_line_prefix(s: Seq<char>, k: int)
    requires
        0 <= k <= s.len(),
        forall|j: int| 0 <= j < k ==> s[j] != '\n',
        k == s.len() || s[k] == '\n',
    ensures
        first_line(s) == s.subrange(0, k),
    decreases s.len(),
{
    if s.len() > 0 && k > 0 {
        lemma_first_line_prefix(s.drop_first(), k - 1);
        assert(s.subrange(0, k) =~= seq![s[0]] + s.drop_first().subrange(0, k - 1));
    } else if s.len() > 0 {
        assert(s.subrange(0, k) =~= Seq::<char>::empty());
    }
}

proof fn lemma_trimmed_window(s: Seq<char>, lo: int, hi: int)
    requires
        0 <= lo <= hi <= s.len(),
        forall|j: int| 0 <= j < lo ==> is_white(#[trigger] s[j]),
        forall|j: int| hi <= j < s.len() ==> is_white(#[trigger] s[j]),
        lo < hi ==> !is_white(s[lo]) && !is_white(s[hi - 1]),
    ensures
        trimmed(s) == s.subrange(lo, hi),
    decreases s.len(),
{
    if s.len() > 0 && is_white(s[0]) {
        if lo > 0 {
            lemma_trimmed_window(s.drop_first(), lo - 1, hi - 1);
            assert(s.drop_first().subrange(lo - 1, hi - 1) =~= s.subrange(lo, hi));
        } else {
            assert(hi == 0) by {
                if hi > 0 {
                    assert(!is_white(s[0]));
                }
            }
            lemma_trimmed_window(s.drop_first(), 0, 0);
            assert(s.drop_first().subrange(0, 0) =~= s.subrange(0, 0));
        }
    } else if s.len() > 0 && is_white(s.last()) {
        assert(hi < s.len()) by {
            if hi == s.len() {
                if lo < hi {
                    assert(!is_white(s[hi - 1]));
                } else {
                    assert(is_white(s[0]));
                }
            }
        }
        lemma_trimmed_window(s.drop_last(), lo, hi);
        assert(s.drop_last().subrange(lo, hi) =~= s.subrange(lo, hi));
    } else if s.len() > 0 {
        assert(lo == 0);
        assert(hi == s.len());
        assert(s.subrange(0, s.len() as int) =~= s);
    } else {
        assert(s.subrange(lo, hi) =~= s);
    }
}

/// Whether a fetched document is admitted into the graph: its first line,
/// trimmed, must read `public:: true`.
pub fn is_public_document(content: &str) -> (r: bool)
    ensures
        r == admits(content@),
{
    let cs = chars_of(content);
    let mut end: usize = 0;
    while end < cs.len() && cs[end] != '\n'
        invariant
            end <= cs@.len(),
            forall|j: int| 0 <= j < end ==> cs@[j] != '\n',
        decreases cs@.len() - end,
    {
        end += 1;
    }
    proof {
        lemma_first_line_prefix(cs@, end as int);
    }
    let ghost line = cs@.subrange(0, end as int);
    let mut lo: usize = 0;
    while lo < end && is_white_char(cs[lo])
        invariant
            lo <= end <= cs@.len(),
            forall|j: int| 0 <= j < lo ==> is_white(#[trigger] cs@[j]),
        decreases end - lo,
    {
        lo += 1;
    }
    let mut hi: usize = end;
    while hi > lo && is_white_char(cs[hi - 1])
        invariant
            lo <= hi <= end <= cs@.len(),
            forall|j: int| hi <= j < end ==> is_white(#[trigger] cs@[j]),
        decreases hi,
    {
        hi -= 1;
    }
    proof {
        assert forall|j: int| 0 <= j < lo implies is_white(#[trigger] line[j]) by {
            assert(line[j] == cs@[j]);
        }
        assert forall|j: int| hi <= j < line.len() implies is_white(#[trigger] line[j]) by {
            assert(line[j] == cs@[j]);
        }
        if lo < hi {
            assert(line[lo as int] == cs@[lo as int]);
            assert(line[hi - 1] == cs@[hi - 1]);
        }
        lemma_trimmed_window(line, lo as int, hi as int);
        reveal_strlit("public:: true");
    }
    let expected = chars_of("public:: true");
    if hi - lo != expected.len() {
        return false;
    }
    let mut k: usize = 0;
    while k < expected.len()
        invariant
            cs@ == content@,
            lo <= hi <= end <= cs@.len(),
            line == cs@.subrange(0, end as int),
            trimmed(first_line(content@)) == line.subrange(lo as int, hi as int),
            expected@ == "public:: true"@,
            hi - lo == expected@.len(),
            k <= expected@.len(),
            forall|j: int| 0 <= j < k ==> cs@[lo + j] == expected@[j],
        decreases expected@.len() - k,
    {
        if cs[lo + k] != expected[k] {
            assert(line.subrange(lo as int, hi as int)[k as int] != expected@[k as int]);
            return false;
        }
        k += 1;
    }
    assert(line.subrange(lo as int, hi as int) =~= expected@);
    true
}

} // verus!
