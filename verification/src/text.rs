//! Character and string helpers: identifier runs, trimming, case folding,
//! lexicographic order, and path components.

use vstd::prelude::*;
use vstd::string::StrSliceExecFns;
use vstd::string::StringExecFns;

verus! {

/// A character that may stand in an identifier.
pub open spec fn ident_char(c: char) -> bool {
    ('a' as u32 <= c as u32 && c as u32 <= 'z' as u32) || ('A' as u32 <= c as u32 && c as u32
        <= 'Z' as u32) || ('0' as u32 <= c as u32 && c as u32 <= '9' as u32) || c == '_'
}

/// Whether the character may stand in an identifier.
pub fn is_ident_char(c: char) -> (r: bool)
    ensures
        r == ident_char(c),
{
    let u = c as u32;
    (97 <= u && u <= 122) || (65 <= u && u <= 90) || (48 <= u && u <= 57) || c == '_'
}

/// The splitter's state after reading the first `i` characters: the finished
/// parts, and the identifier run still open.
pub open spec fn split_state(s: Seq<char>, i: int) -> (Seq<Seq<char>>, Seq<char>)
    decreases i,
{
    if i <= 0 {
        (Seq::empty(), Seq::empty())
    } else {
        let prev = split_state(s, i - 1);
        let c = s[i - 1];
        if ident_char(c) {
            (prev.0, prev.1.push(c))
        } else if prev.1.len() > 0 {
            (prev.0.push(prev.1), Seq::empty())
        } else {
            prev
        }
    }
}

/// The maximal identifier runs of a string, in order.
pub open spec fn ident_parts(s: Seq<char>) -> Seq<Seq<char>> {
    let st = split_state(s, s.len() as int);
    if st.1.len() > 0 {
        st.0.push(st.1)
    } else {
        st.0
    }
}

/// Split a string into its maximal identifier runs.
pub fn split_ident_parts(s: &String) -> (r: Vec<String>)
    ensures
        r@.map_values(|p: String| p@) == ident_parts(s@),
{
    let text = s.as_str();
    let n = text.unicode_len();
    let mut parts: Vec<String> = Vec::new();
    // start of the open identifier run, when one is open
    let mut run: Option<usize> = None;
    let mut i: usize = 0;
    while i < n
        invariant
            n == s@.len(),
            i <= n,
            text@ == s@,
            parts@.map_values(|p: String| p@) == split_state(s@, i as int).0,
            match run {
                Some(a) => a < i <= n && split_state(s@, i as int).1 == s@.subrange(
                    a as int,
                    i as int,
                ) && split_state(s@, i as int).1.len() > 0,
                None => split_state(s@, i as int).1.len() == 0,
            },
        decreases n - i,
    {
        let c = text.get_char(i);
        if is_ident_char(c) {
            if run.is_none() {
                run = Some(i);
            }
            proof {
                let a = run.unwrap() as int;
                assert(s@.subrange(a, i + 1) =~= s@.subrange(a, i as int).push(s@[i as int]));
            }
        } else {
            if let Some(a) = run {
                parts.push(text.substring_char(a, i).to_owned());
                run = None;
                proof {
                    assert(parts@.map_values(|p: String| p@) =~= split_state(s@, i as int).0.push(
                        split_state(s@, i as int).1,
                    ));
                }
            }
        }
        i += 1;
    }
    if let Some(a) = run {
        parts.push(text.substring_char(a, n).to_owned());
        proof {
            assert(parts@.map_values(|p: String| p@) =~= split_state(s@, n as int).0.push(
                split_state(s@, n as int).1,
            ));
        }
    } else {
        proof {
            assert(parts@.map_values(|p: String| p@) =~= ident_parts(s@));
        }
    }
    parts
}

/// A white-space character.
pub open spec fn ws_char(c: char) -> bool {
    c == ' ' || c == '\t' || c == '\r' || c == '\n'
}

pub open spec fn leading_ws(s: Seq<char>) -> int
    decreases s.len(),
{
    if s.len() == 0 || !ws_char(s[0]) {
        0
    } else {
        1 + leading_ws(s.drop_first())
    }
}

pub open spec fn trailing_ws(s: Seq<char>) -> int
    decreases s.len(),
{
    if s.len() == 0 || !ws_char(s.last()) {
        0
    } else {
        1 + trailing_ws(s.drop_last())
    }
}

/// The string without its leading and trailing white space.
pub open spec fn trimmed(s: Seq<char>) -> Seq<char> {
    let a = leading_ws(s);
    let b = trailing_ws(s);
    if a + b <= s.len() {
        s.subrange(a, s.len() - b)
    } else {
        Seq::empty()
    }
}

proof fn lemma_leading_ws(s: Seq<char>)
    ensures
        0 <= leading_ws(s) <= s.len(),
        forall|k: int| 0 <= k < leading_ws(s) ==> ws_char(s[k]),
        leading_ws(s) < s.len() ==> !ws_char(s[leading_ws(s)]),
    decreases s.len(),
{
    if s.len() > 0 && ws_char(s[0]) {
        lemma_leading_ws(s.drop_first());
        assert forall|k: int| 0 <= k < leading_ws(s) implies ws_char(s[k]) by {
            if k > 0 {
                assert(s.drop_first()[k - 1] == s[k]);
                assert(ws_char(s.drop_first()[k - 1]));
            }
        }
        if leading_ws(s) < s.len() {
            assert(s.drop_first()[leading_ws(s) - 1] == s[leading_ws(s)]);
        }
    }
}

proof fn lemma_trailing_ws(s: Seq<char>)
    ensures
        0 <= trailing_ws(s) <= s.len(),
        forall|k: int| s.len() - trailing_ws(s) <= k < s.len() ==> ws_char(s[k]),
        trailing_ws(s) < s.len() ==> !ws_char(s[s.len() - trailing_ws(s) - 1]),
    decreases s.len(),
{
    if s.len() > 0 && ws_char(s.last()) {
        lemma_trailing_ws(s.drop_last());
        assert forall|k: int| s.len() - trailing_ws(s) <= k < s.len() implies ws_char(s[k]) by {
            if k < s.len() - 1 {
                assert(s.drop_last()[k] == s[k]);
                assert(ws_char(s.drop_last()[k]));
            }
        }
        if trailing_ws(s) < s.len() {
            assert(s.drop_last()[s.len() - trailing_ws(s) - 1] == s[s.len() - trailing_ws(s) - 1]);
        }
    }
}

proof fn lemma_leading_ws_prefix(s: Seq<char>, a: int)
    requires
        0 <= a <= s.len(),
        forall|k: int| 0 <= k < a ==> ws_char(s[k]),
        a < s.len() ==> !ws_char(s[a]),
    ensures
        leading_ws(s) == a,
    decreases s.len(),
{
    if s.len() > 0 && ws_char(s[0]) {
        assert(forall|k: int| 0 <= k < s.drop_first().len() ==> s.drop_first()[k] == s[k + 1]);
        lemma_leading_ws_prefix(s.drop_first(), a - 1);
    }
}

proof fn lemma_trailing_ws_suffix(s: Seq<char>, b: int)
    requires
        0 <= b <= s.len(),
        forall|k: int| s.len() - b <= k < s.len() ==> ws_char(s[k]),
        b < s.len() ==> !ws_char(s[s.len() - b - 1]),
    ensures
        trailing_ws(s) == b,
    decreases s.len(),
{
    if s.len() > 0 && ws_char(s.last()) {
        lemma_trailing_ws_suffix(s.drop_last(), b - 1);
    }
}

/// Cut the leading and trailing white space off.
pub fn trim(s: &String) -> (r: String)
    ensures
        r@ == trimmed(s@),
{
    let text = s.as_str();
    let n = text.unicode_len();
    let mut a: usize = 0;
    while a < n && is_ws_char(text.get_char(a))
        invariant
            n == s@.len(),
            text@ == s@,
            a <= n,
            forall|k: int| 0 <= k < a as int ==> ws_char(s@[k]),
        decreases n - a,
    {
        a += 1;
    }
    if a == n {
        proof {
            lemma_leading_ws_prefix(s@, n as int);
            lemma_trailing_ws(s@);
            assert(leading_ws(s@) + trailing_ws(s@) <= s@.len() ==> trimmed(s@)
                =~= Seq::<char>::empty());
        }
        return String::new();
    }
    let mut b: usize = n;
    while b > a && is_ws_char(text.get_char(b - 1))
        invariant
            n == s@.len(),
            text@ == s@,
            a < n,
            a <= b <= n,
            forall|k: int| 0 <= k < a as int ==> ws_char(s@[k]),
            !ws_char(s@[a as int]),
            forall|k: int| b as int <= k < n ==> ws_char(s@[k]),
        decreases b,
    {
        b -= 1;
    }
    proof {
        lemma_leading_ws_prefix(s@, a as int);
        lemma_trailing_ws_suffix(s@, n as int - b as int);
    }
    text.substring_char(a, b).to_owned()
}

/// Whether the character is white space.
pub fn is_ws_char(c: char) -> (r: bool)
    ensures
        r == ws_char(c),
{
    c == ' ' || c == '\t' || c == '\r' || c == '\n'
}

/// The small letter for an ASCII capital; any other character stands.
pub open spec fn lower_char(c: char) -> char {
    if c == 'A' {
        'a'
    } else if c == 'B' {
        'b'
    } else if c == 'C' {
        'c'
    } else if c == 'D' {
        'd'
    } else if c == 'E' {
        'e'
    } else if c == 'F' {
        'f'
    } else if c == 'G' {
        'g'
    } else if c == 'H' {
        'h'
    } else if c == 'I' {
        'i'
    } else if c == 'J' {
        'j'
    } else if c == 'K' {
        'k'
    } else if c == 'L' {
        'l'
    } else if c == 'M' {
        'm'
    } else if c == 'N' {
        'n'
    } else if c == 'O' {
        'o'
    } else if c == 'P' {
        'p'
    } else if c == 'Q' {
        'q'
    } else if c == 'R' {
        'r'
    } else if c == 'S' {
        's'
    } else if c == 'T' {
        't'
    } else if c == 'U' {
        'u'
    } else if c == 'V' {
        'v'
    } else if c == 'W' {
        'w'
    } else if c == 'X' {
        'x'
    } else if c == 'Y' {
        'y'
    } else if c == 'Z' {
        'z'
    } else {
        c
    }
}

/// The string with each ASCII capital folded to its small letter.
pub open spec fn lowered(s: Seq<char>) -> Seq<char> {
    Seq::new(s.len(), |i: int| lower_char(s[i]))
}

/// Fold one character.
pub fn lower_char_exec(c: char) -> (r: char)
    ensures
        r == lower_char(c),
{
    if c == 'A' {
        'a'
    } else if c == 'B' {
        'b'
    } else if c == 'C' {
        'c'
    } else if c == 'D' {
        'd'
    } else if c == 'E' {
        'e'
    } else if c == 'F' {
        'f'
    } else if c == 'G' {
        'g'
    } else if c == 'H' {
        'h'
    } else if c == 'I' {
        'i'
    } else if c == 'J' {
        'j'
    } else if c == 'K' {
        'k'
    } else if c == 'L' {
        'l'
    } else if c == 'M' {
        'm'
    } else if c == 'N' {
        'n'
    } else if c == 'O' {
        'o'
    } else if c == 'P' {
        'p'
    } else if c == 'Q' {
        'q'
    } else if c == 'R' {
        'r'
    } else if c == 'S' {
        's'
    } else if c == 'T' {
        't'
    } else if c == 'U' {
        'u'
    } else if c == 'V' {
        'v'
    } else if c == 'W' {
        'w'
    } else if c == 'X' {
        'x'
    } else if c == 'Y' {
        'y'
    } else if c == 'Z' {
        'z'
    } else {
        c
    }
}

/// Append one character.
///
/// Relies on String::push of std: it appends the given character to the end
/// of the string.
#[verifier::external_body]
pub fn push_char(s: &mut String, c: char)
    ensures
        final(s)@ == old(s)@.push(c),
{
    s.push(c)
}

/// Fold every ASCII capital of the string to its small letter.
pub fn to_lower(s: &String) -> (r: String)
    ensures
        r@ == lowered(s@),
{
    let text = s.as_str();
    let n = text.unicode_len();
    let mut r = String::new();
    let mut i: usize = 0;
    while i < n
        invariant
            n == s@.len(),
            text@ == s@,
            i <= n,
            r@ == lowered(s@).take(i as int),
        decreases n - i,
    {
        push_char(&mut r, lower_char_exec(text.get_char(i)));
        proof {
            assert(lowered(s@).take(i + 1) =~= lowered(s@).take(i as int).push(
                lower_char(s@[i as int]),
            ));
        }
        i += 1;
    }
    proof {
        assert(lowered(s@).take(n as int) =~= lowered(s@));
    }
    r
}

/// Strict lexicographic order on character sequences, by code point.
pub open spec fn lex_lt(a: Seq<char>, b: Seq<char>) -> bool
    decreases a.len(),
{
    if b.len() == 0 {
        false
    } else if a.len() == 0 {
        true
    } else if (a[0] as u32) < (b[0] as u32) {
        true
    } else if (a[0] as u32) > (b[0] as u32) {
        false
    } else {
        lex_lt(a.drop_first(), b.drop_first())
    }
}

proof fn lemma_lex_skip(a: Seq<char>, b: Seq<char>, i: int)
    requires
        0 <= i < a.len(),
        i < b.len(),
        a[i] == b[i],
    ensures
        lex_lt(a.skip(i), b.skip(i)) == lex_lt(a.skip(i + 1), b.skip(i + 1)),
{
    assert(a.skip(i)[0] == a[i]);
    assert(b.skip(i)[0] == b[i]);
    assert(a.skip(i).drop_first() =~= a.skip(i + 1));
    assert(b.skip(i).drop_first() =~= b.skip(i + 1));
}

/// Whether `a` stands strictly before `b` in lexicographic order.
pub fn str_lt(a: &String, b: &String) -> (r: bool)
    ensures
        r == lex_lt(a@, b@),
{
    let ta = a.as_str();
    let tb = b.as_str();
    let na = ta.unicode_len();
    let nb = tb.unicode_len();
    let mut i: usize = 0;
    proof {
        assert(a@.skip(0) =~= a@);
        assert(b@.skip(0) =~= b@);
    }
    while i < na && i < nb
        invariant
            na == a@.len(),
            nb == b@.len(),
            ta@ == a@,
            tb@ == b@,
            i <= na,
            i <= nb,
            lex_lt(a@, b@) == lex_lt(a@.skip(i as int), b@.skip(i as int)),
        decreases na - i,
    {
        let ca = ta.get_char(i) as u32;
        let cb = tb.get_char(i) as u32;
        if ca < cb {
            assert(a@.skip(i as int)[0] == a@[i as int]);
            assert(b@.skip(i as int)[0] == b@[i as int]);
            return true;
        }
        if ca > cb {
            assert(a@.skip(i as int)[0] == a@[i as int]);
            assert(b@.skip(i as int)[0] == b@[i as int]);
            return false;
        }
        proof {
            vstd::utf8::char_u32_cast(a@[i as int], ca);
            vstd::utf8::char_u32_cast(b@[i as int], cb);
            lemma_lex_skip(a@, b@, i as int);
        }
        i += 1;
    }
    proof {
        if i < nb {
            assert(lex_lt(a@.skip(i as int), b@.skip(i as int)));
        } else {
            assert(b@.skip(i as int).len() == 0);
        }
    }
    i < nb
}

/// The position of the last occurrence of either character, or -1.
pub open spec fn last_idx2(s: Seq<char>, c1: char, c2: char) -> int
    decreases s.len(),
{
    if s.len() == 0 {
        -1
    } else if s.last() == c1 || s.last() == c2 {
        s.len() - 1
    } else {
        last_idx2(s.drop_last(), c1, c2)
    }
}

proof fn lemma_last_idx2_at(s: Seq<char>, c1: char, c2: char, k: int)
    requires
        0 <= k < s.len(),
        s[k] == c1 || s[k] == c2,
        forall|j: int| k < j < s.len() ==> s[j] != c1 && s[j] != c2,
    ensures
        last_idx2(s, c1, c2) == k,
    decreases s.len(),
{
    if k < s.len() - 1 {
        assert(forall|j: int| 0 <= j < s.len() - 1 ==> s.drop_last()[j] == s[j]);
        lemma_last_idx2_at(s.drop_last(), c1, c2, k);
    }
}

proof fn lemma_last_idx2_none(s: Seq<char>, c1: char, c2: char)
    requires
        forall|j: int| 0 <= j < s.len() ==> s[j] != c1 && s[j] != c2,
    ensures
        last_idx2(s, c1, c2) == -1,
    decreases s.len(),
{
    if s.len() > 0 {
        assert(forall|j: int| 0 <= j < s.len() - 1 ==> s.drop_last()[j] == s[j]);
        lemma_last_idx2_none(s.drop_last(), c1, c2);
    }
}

/// Find the last occurrence of either character.
pub fn find_last_of2(text: &str, c1: char, c2: char) -> (r: Option<usize>)
    ensures
        match r {
            Some(k) => k < text@.len() && last_idx2(text@, c1, c2) == k as int,
            None => last_idx2(text@, c1, c2) == -1,
        },
{
    let n = text.unicode_len();
    let mut i: usize = n;
    while i > 0
        invariant
            n == text@.len(),
            i <= n,
            forall|j: int| i as int <= j < n ==> text@[j] != c1 && text@[j] != c2,
        decreases i,
    {
        let c = text.get_char(i - 1);
        if c == c1 || c == c2 {
            proof {
                lemma_last_idx2_at(text@, c1, c2, i - 1);
            }
            return Some(i - 1);
        }
        i -= 1;
    }
    proof {
        lemma_last_idx2_none(text@, c1, c2);
    }
    None
}

/// The file name after the last path separator.
pub open spec fn basename(p: Seq<char>) -> Seq<char> {
    p.subrange(last_idx2(p, '/', '\\') + 1, p.len() as int)
}

/// The base name without its extension: what stands before the last dot,
/// the whole base name when no dot follows its first character.
pub open spec fn stem(p: Seq<char>) -> Seq<char> {
    let b = basename(p);
    let d = last_idx2(b, '.', '.');
    if d <= 0 {
        b
    } else {
        b.take(d)
    }
}

proof fn lemma_last_idx2_bounds(s: Seq<char>, c1: char, c2: char)
    ensures
        -1 <= last_idx2(s, c1, c2) < s.len(),
    decreases s.len(),
{
    if s.len() > 0 && !(s.last() == c1 || s.last() == c2) {
        lemma_last_idx2_bounds(s.drop_last(), c1, c2);
    }
}

/// The base name of a path: what follows its last separator.
pub fn basename_exec(p: &String) -> (r: String)
    ensures
        r@ == basename(p@),
{
    let text = p.as_str();
    let n = text.unicode_len();
    proof {
        lemma_last_idx2_bounds(p@, '/', '\\');
    }
    let a: usize = match find_last_of2(text, '/', '\\') {
        Some(k) => k + 1,
        None => 0,
    };
    text.substring_char(a, n).to_owned()
}

/// The stem of a path: its base name without the extension.
pub fn stem_exec(p: &String) -> (r: String)
    ensures
        r@ == stem(p@),
{
    let b = basename_exec(p);
    let text = b.as_str();
    let n = text.unicode_len();
    proof {
        lemma_last_idx2_bounds(b@, '.', '.');
    }
    match find_last_of2(text, '.', '.') {
        Some(k) if k > 0 => text.substring_char(0, k).to_owned(),
        _ => b,
    }
}

/// The extension counted for an unknown file type: what follows the last dot
/// of the name, unless the name has no dot, the dot opens a dot-file, the
/// dot belongs to a folder, or nothing follows it.
pub open spec fn ext_of(name: Seq<char>) -> Option<Seq<char>> {
    let d = last_idx2(name, '.', '.');
    if d < 0 {
        None
    } else if d + 1 >= name.len() {
        None
    } else if d == 0 || name[d - 1] == '/' || name[d - 1] == '\\' {
        None
    } else if exists|j: int|
        d < j < name.len() && (name[j] == '/' || name[j] == '\\') {
        None
    } else {
        Some(name.subrange(d + 1, name.len() as int))
    }
}

/// Extract the extension of a file name, when one is counted.
pub fn ext_of_exec(name: &String) -> (r: Option<String>)
    ensures
        match r {
            Some(e) => ext_of(name@) == Some(e@),
            None => ext_of(name@) is None,
        },
{
    let text = name.as_str();
    let n = text.unicode_len();
    proof {
        lemma_last_idx2_bounds(name@, '.', '.');
    }
    match find_last_of2(text, '.', '.') {
        None => None,
        Some(d) => {
            if d + 1 >= n {
                return None;
            }
            if d == 0 {
                return None;
            }
            let before = text.get_char(d - 1);
            if before == '/' || before == '\\' {
                return None;
            }
            let mut j: usize = d + 1;
            while j < n
                invariant
                    n == name@.len(),
                    text@ == name@,
                    d < j <= n,
                    d + 1 < n,
                    last_idx2(name@, '.', '.') == d as int,
                    forall|k: int| d < k < j as int ==> name@[k] != '/' && name@[k] != '\\',
                decreases n - j,
            {
                let c = text.get_char(j);
                if c == '/' || c == '\\' {
                    proof {
                        let w = j as int;
                        assert(d < w < name@.len() && (name@[w] == '/' || name@[w] == '\\'));
                    }
                    return None;
                }
                j += 1;
            }
            Some(text.substring_char(d + 1, n).to_owned())
        },
    }
}

/// The position of the first occurrence of the character, or -1.
pub open spec fn first_idx(s: Seq<char>, c: char) -> int
    decreases s.len(),
{
    if s.len() == 0 {
        -1
    } else if s[0] == c {
        0
    } else if first_idx(s.drop_first(), c) < 0 {
        -1
    } else {
        1 + first_idx(s.drop_first(), c)
    }
}

proof fn lemma_first_idx_at(s: Seq<char>, c: char, k: int)
    requires
        0 <= k < s.len(),
        s[k] == c,
        forall|j: int| 0 <= j < k ==> s[j] != c,
    ensures
        first_idx(s, c) == k,
    decreases s.len(),
{
    if s[0] != c {
        assert(forall|j: int| 0 <= j < s.drop_first().len() ==> s.drop_first()[j] == s[j + 1]);
        lemma_first_idx_at(s.drop_first(), c, k - 1);
    }
}

proof fn lemma_first_idx_none(s: Seq<char>, c: char)
    requires
        forall|j: int| 0 <= j < s.len() ==> s[j] != c,
    ensures
        first_idx(s, c) == -1,
    decreases s.len(),
{
    if s.len() > 0 {
        assert(forall|j: int| 0 <= j < s.drop_first().len() ==> s.drop_first()[j] == s[j + 1]);
        lemma_first_idx_none(s.drop_first(), c);
    }
}

/// Where the character first occurs in the string.
pub fn find_first_of(text: &str, c: char) -> (r: Option<usize>)
    ensures
        match r {
            Some(k) => k < text@.len() && first_idx(text@, c) == k as int,
            None => first_idx(text@, c) == -1,
        },
{
    let n = text.unicode_len();
    let mut i: usize = 0;
    while i < n
        invariant
            n == text@.len(),
            i <= n,
            forall|j: int| 0 <= j < i as int ==> text@[j] != c,
        decreases n - i,
    {
        if text.get_char(i) == c {
            proof {
                lemma_first_idx_at(text@, c, i as int);
            }
            return Some(i);
        }
        i += 1;
    }
    proof {
        lemma_first_idx_none(text@, c);
    }
    None
}

/// The first index is in range when it is not -1.
pub proof fn lemma_first_idx_bounds(s: Seq<char>, c: char)
    ensures
        -1 <= first_idx(s, c) < s.len(),
        first_idx(s, c) >= 0 ==> s[first_idx(s, c)] == c,
    decreases s.len(),
{
    if s.len() > 0 && s[0] != c {
        lemma_first_idx_bounds(s.drop_first(), c);
    }
}

/// The position of the first occurrence of either character, or -1.
pub open spec fn first_idx2(s: Seq<char>, c1: char, c2: char) -> int
    decreases s.len(),
{
    if s.len() == 0 {
        -1
    } else if s[0] == c1 || s[0] == c2 {
        0
    } else if first_idx2(s.drop_first(), c1, c2) < 0 {
        -1
    } else {
        1 + first_idx2(s.drop_first(), c1, c2)
    }
}

proof fn lemma_first_idx2_at(s: Seq<char>, c1: char, c2: char, k: int)
    requires
        0 <= k < s.len(),
        s[k] == c1 || s[k] == c2,
        forall|j: int| 0 <= j < k ==> s[j] != c1 && s[j] != c2,
    ensures
        first_idx2(s, c1, c2) == k,
    decreases s.len(),
{
    if !(s[0] == c1 || s[0] == c2) {
        assert(forall|j: int| 0 <= j < s.drop_first().len() ==> s.drop_first()[j] == s[j + 1]);
        lemma_first_idx2_at(s.drop_first(), c1, c2, k - 1);
    }
}

proof fn lemma_first_idx2_none(s: Seq<char>, c1: char, c2: char)
    requires
        forall|j: int| 0 <= j < s.len() ==> s[j] != c1 && s[j] != c2,
    ensures
        first_idx2(s, c1, c2) == -1,
    decreases s.len(),
{
    if s.len() > 0 {
        assert(forall|j: int| 0 <= j < s.drop_first().len() ==> s.drop_first()[j] == s[j + 1]);
        lemma_first_idx2_none(s.drop_first(), c1, c2);
    }
}

/// The first index is in range when it is not -1, and holds a hit.
pub proof fn lemma_first_idx2_bounds(s: Seq<char>, c1: char, c2: char)
    ensures
        -1 <= first_idx2(s, c1, c2) < s.len(),
        first_idx2(s, c1, c2) >= 0 ==> (s[first_idx2(s, c1, c2)] == c1 || s[first_idx2(
            s,
            c1,
            c2,
        )] == c2),
        first_idx2(s, c1, c2) >= 0 ==> forall|j: int| 0 <= j < first_idx2(s, c1, c2) ==> s[j]
            != c1 && s[j] != c2,
        first_idx2(s, c1, c2) < 0 ==> forall|j: int| 0 <= j < s.len() ==> s[j] != c1 && s[j]
            != c2,
    decreases s.len(),
{
    if s.len() > 0 && !(s[0] == c1 || s[0] == c2) {
        lemma_first_idx2_bounds(s.drop_first(), c1, c2);
        assert(forall|j: int| 0 <= j < s.drop_first().len() ==> s.drop_first()[j] == s[j + 1]);
        let r = first_idx2(s, c1, c2);
        if r >= 0 {
            assert forall|j: int| 0 <= j < r implies s[j] != c1 && s[j] != c2 by {
                if j > 0 {
                    assert(s.drop_first()[j - 1] == s[j]);
                }
            }
        } else {
            assert forall|j: int| 0 <= j < s.len() implies s[j] != c1 && s[j] != c2 by {
                if j > 0 {
                    assert(s.drop_first()[j - 1] == s[j]);
                }
            }
        }
    }
}

/// Find the first occurrence of either character, at or after `from`.
pub fn find_first_of2_from(text: &str, c1: char, c2: char, from: usize) -> (r: Option<usize>)
    requires
        from <= text@.len(),
    ensures
        match r {
            Some(k) => from <= k < text@.len() && first_idx2(
                text@.skip(from as int),
                c1,
                c2,
            ) == k - from,
            None => first_idx2(text@.skip(from as int), c1, c2) == -1,
        },
{
    let n = text.unicode_len();
    let mut i: usize = from;
    while i < n
        invariant
            n == text@.len(),
            from <= i <= n,
            forall|j: int| from as int <= j < i as int ==> text@[j] != c1 && text@[j] != c2,
        decreases n - i,
    {
        let c = text.get_char(i);
        if c == c1 || c == c2 {
            proof {
                let suf = text@.skip(from as int);
                assert(forall|j: int| 0 <= j < suf.len() ==> suf[j] == text@[from + j]);
                lemma_first_idx2_at(suf, c1, c2, i - from);
            }
            return Some(i);
        }
        i += 1;
    }
    proof {
        let suf = text@.skip(from as int);
        assert(forall|j: int| 0 <= j < suf.len() ==> suf[j] == text@[from + j]);
        lemma_first_idx2_none(suf, c1, c2);
    }
    None
}

} // verus!
