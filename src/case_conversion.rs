//! Conversion between the naming styles used by clients (camelCase) and by the
//! server (snake_case), plus kebab-case and PascalCase.
use vstd::prelude::*;
use crate::text::{
    chars_of, is_ascii_lower, is_ascii_upper, lower_char, string_of, to_ascii_lower,
    to_ascii_upper, upper_char,
};

verus! {

/// A character that separates words in snake_case, kebab-case or plain text.
pub open spec fn is_word_separator(c: char) -> bool {
    c == '-' || c == '_' || c == ' '
}

pub open spec fn hyphen_to_underscore(c: char) -> char {
    if c == '-' {
        '_'
    } else {
        c
    }
}

pub open spec fn underscore_to_hyphen(c: char) -> char {
    if c == '_' {
        '-'
    } else {
        c
    }
}

/// An underscore goes before the uppercase letter at `i` when it does not start
/// the text and follows a lowercase letter or is followed by one.
pub open spec fn word_break_before(t: Seq<char>, i: int) -> bool {
    &&& is_ascii_upper(t[i])
    &&& i > 0
    &&& (is_ascii_lower(t[i - 1]) || (i + 1 < t.len() && is_ascii_lower(t[i + 1])))
}

/// The first `n` characters of `t` with word breaks marked and letters lowered.
pub open spec fn snake_marked(t: Seq<char>, n: nat) -> Seq<char>
    decreases n,
{
    if n == 0 {
        Seq::empty()
    } else {
        let i = n - 1;
        let prev = snake_marked(t, i as nat);
        if word_break_before(t, i) {
            prev.push('_').push(lower_char(t[i]))
        } else {
            prev.push(lower_char(t[i]))
        }
    }
}

/// The first `n` characters of `s` with each run of underscores cut to one.
pub open spec fn collapse_underscores(s: Seq<char>, n: nat) -> Seq<char>
    decreases n,
{
    if n == 0 {
        Seq::empty()
    } else {
        let i = n - 1;
        let prev = collapse_underscores(s, i as nat);
        if s[i] == '_' && i >= 1 && s[i - 1] == '_' {
            prev
        } else {
            prev.push(s[i])
        }
    }
}

pub open spec fn snake_case(s: Seq<char>) -> Seq<char> {
    let t = s.map_values(|c: char| hyphen_to_underscore(c));
    let m = snake_marked(t, t.len());
    collapse_underscores(m, m.len())
}

pub open spec fn kebab_case(s: Seq<char>) -> Seq<char> {
    snake_case(s).map_values(|c: char| underscore_to_hyphen(c))
}

/// The first `n` characters of `s` in camelCase: separators dropped, the first
/// character lowered, a character after a separator (past the first position)
/// raised, the rest kept.
pub open spec fn camel_prefix(s: Seq<char>, n: nat) -> Seq<char>
    decreases n,
{
    if n == 0 {
        Seq::empty()
    } else {
        let i = n - 1;
        let prev = camel_prefix(s, i as nat);
        if is_word_separator(s[i]) {
            prev
        } else if i == 0 {
            prev.push(lower_char(s[i]))
        } else if i >= 2 && is_word_separator(s[i - 1]) {
            prev.push(upper_char(s[i]))
        } else {
            prev.push(s[i])
        }
    }
}

/// The first `n` characters of `s` in PascalCase: separators dropped, the first
/// character and each one after a separator raised, the rest kept.
pub open spec fn pascal_prefix(s: Seq<char>, n: nat) -> Seq<char>
    decreases n,
{
    if n == 0 {
        Seq::empty()
    } else {
        let i = n - 1;
        let prev = pascal_prefix(s, i as nat);
        if is_word_separator(s[i]) {
            prev
        } else if i == 0 || is_word_separator(s[i - 1]) {
            prev.push(upper_char(s[i]))
        } else {
            prev.push(s[i])
        }
    }
}

pub open spec fn camel_case(s: Seq<char>) -> Seq<char> {
    camel_prefix(s, s.len())
}

pub open spec fn pascal_case(s: Seq<char>) -> Seq<char> {
    pascal_prefix(s, s.len())
}

fn snake_chars(s: &str) -> (r: Vec<char>)
    ensures
        r@ == snake_case(s@),
{
    let src = chars_of(s);
    let ghost t = s@.map_values(|c: char| hyphen_to_underscore(c));
    let mut u: Vec<char> = Vec::new();
    let mut i: usize = 0;
    while i < src.len()
        invariant
            src@ == s@,
            t == s@.map_values(|c: char| hyphen_to_underscore(c)),
            i <= src.len(),
            u@ == t.subrange(0, i as int),
        decreases src.len() - i,
    {
        let c = src[i];
        u.push(if c == '-' { '_' } else { c });
        i += 1;
        assert(u@ =~= t.subrange(0, i as int));
    }
    assert(u@ =~= t);
    let mut marked: Vec<char> = Vec::new();
    let mut i: usize = 0;
    while i < u.len()
        invariant
            u@ == t,
            i <= u.len(),
            marked@ == snake_marked(t, i as nat),
        decreases u.len() - i,
    {
        let c = u[i];
        if 'A' <= c && c <= 'Z' && i > 0 {
            let prev = u[i - 1];
            let next_lower = i + 1 < u.len() && 'a' <= u[i + 1] && u[i + 1] <= 'z';
            if ('a' <= prev && prev <= 'z') || next_lower {
                marked.push('_');
            }
        }
        marked.push(to_ascii_lower(c));
        i += 1;
    }
    let mut out: Vec<char> = Vec::new();
    let mut i: usize = 0;
    while i < marked.len()
        invariant
            i <= marked.len(),
            out@ == collapse_underscores(marked@, i as nat),
        decreases marked.len() - i,
    {
        let c = marked[i];
        if !(c == '_' && i >= 1 && marked[i - 1] == '_') {
            out.push(c);
        }
        i += 1;
    }
    out
}

/// Converts camelCase, PascalCase or kebab-case text to snake_case.
pub fn to_snake_case(s: &str) -> (r: String)
    ensures
        r@ == snake_case(s@),
{
    let v = snake_chars(s);
    string_of(&v)
}

/// Converts camelCase, PascalCase or snake_case text to kebab-case.
pub fn to_kebab_case(s: &str) -> (r: String)
    ensures
        r@ == kebab_case(s@),
{
    let v = snake_chars(s);
    let mut out: Vec<char> = Vec::new();
    let mut i: usize = 0;
    while i < v.len()
        invariant
            v@ == snake_case(s@),
            i <= v.len(),
            out@ == v@.subrange(0, i as int).map_values(|c: char| underscore_to_hyphen(c)),
        decreases v.len() - i,
    {
        let c = v[i];
        out.push(if c == '_' { '-' } else { c });
        proof {
            assert(v@.subrange(0, i + 1) =~= v@.subrange(0, i as int).push(c));
        }
        i += 1;
        assert(out@ =~= v@.subrange(0, i as int).map_values(|c: char| underscore_to_hyphen(c)));
    }
    assert(v@.subrange(0, v.len() as int) =~= v@);
    string_of(&out)
}

/// Converts snake_case, PascalCase or kebab-case text to camelCase.
pub fn to_camel_case(s: &str) -> (r: String)
    ensures
        r@ == camel_case(s@),
{
    let src = chars_of(s);
    let mut out: Vec<char> = Vec::new();
    let mut i: usize = 0;
    while i < src.len()
        invariant
            src@ == s@,
            i <= src.len(),
            out@ == camel_prefix(s@, i as nat),
        decreases src.len() - i,
    {
        let c = src[i];
        if !(c == '-' || c == '_' || c == ' ') {
            if i == 0 {
                out.push(to_ascii_lower(c));
            } else if i >= 2 && (src[i - 1] == '-' || src[i - 1] == '_' || src[i - 1] == ' ') {
                out.push(to_ascii_upper(c));
            } else {
                out.push(c);
            }
        }
        i += 1;
    }
    string_of(&out)
}

/// Converts camelCase, snake_case or kebab-case text to PascalCase.
pub fn to_pascal_case(s: &str) -> (r: String)
    ensures
        r@ == pascal_case(s@),
{
    let src = chars_of(s);
    let mut out: Vec<char> = Vec::new();
    let mut i: usize = 0;
    while i < src.len()
        invariant
            src@ == s@,
            i <= src.len(),
            out@ == pascal_prefix(s@, i as nat),
        decreases src.len() - i,
    {
        let c = src[i];
        if !(c == '-' || c == '_' || c == ' ') {
            if i == 0 || src[i - 1] == '-' || src[i - 1] == '_' || src[i - 1] == ' ' {
                out.push(to_ascii_upper(c));
            } else {
                out.push(c);
            }
        }
        i += 1;
    }
    string_of(&out)
}

} // verus!
