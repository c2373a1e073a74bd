//! Character classification and string building used throughout the code
//! generator's front-end logic.
use vstd::prelude::*;
use vstd::string::*;

verus! {

/// The Unicode `White_Space` property: the characters for which
/// `char::is_whitespace` answers `true`.
pub open spec fn is_white_space(c: char) -> bool {
    let n = c as u32;
    ||| 0x09 <= n <= 0x0D
    ||| n == 0x20
    ||| n == 0x85
    ||| n == 0xA0
    ||| n == 0x1680
    ||| 0x2000 <= n <= 0x200A
    ||| n == 0x2028
    ||| n == 0x2029
    ||| n == 0x202F
    ||| n == 0x205F
    ||| n == 0x3000
}

/// Whether a character outside ASCII and white space has the Unicode
/// `Alphabetic` or `Numeric` property, as `char::is_alphanumeric` answers.
pub uninterp spec fn unicode_alphanumeric(c: char) -> bool;

/// Whether a character outside ASCII has the Unicode `Uppercase` property,
/// as `char::is_uppercase` answers.
pub uninterp spec fn unicode_uppercase(c: char) -> bool;

/// Whether a character is white space (the Unicode `White_Space`
/// property, as `char::is_whitespace` answers).
pub(crate) fn char_is_whitespace(c: char) -> (r: bool)
    ensures
        r == is_white_space(c),
{
    let n = c as u32;
    (0x09 <= n && n <= 0x0D) || n == 0x20 || n == 0x85 || n == 0xA0 || n == 0x1680 || (0x2000 <= n && n <= 0x200A)
        || n == 0x2028 || n == 0x2029 || n == 0x202F || n == 0x205F || n == 0x3000
}

/// What `char::is_alphanumeric` answers: for an ASCII character, whether
/// it is a letter or a digit; white space is never alphanumeric; for any
/// other character the Unicode `Alphabetic` or `Numeric` property, named
/// `unicode_alphanumeric`.
pub open spec fn is_alphanumeric_char(c: char) -> bool {
    if (c as u32) < 128 {
        ('0' <= c && c <= '9') || ('a' <= c && c <= 'z') || ('A' <= c && c <= 'Z')
    } else if is_white_space(c) {
        false
    } else {
        unicode_alphanumeric(c)
    }
}

/// What `char::is_uppercase` answers: for an ASCII character, whether it
/// is a capital letter; for any other character the Unicode `Uppercase`
/// property, named `unicode_uppercase`.
pub open spec fn is_uppercase_char(c: char) -> bool {
    if (c as u32) < 128 { 'A' <= c && c <= 'Z' } else { unicode_uppercase(c) }
}

/// `char::is_alphanumeric` (see `is_alphanumeric_char`).
#[verifier::external_body]
pub(crate) fn char_is_alphanumeric(c: char) -> (r: bool)
    ensures
        r == is_alphanumeric_char(c),
        (c as u32) >= 128 && !is_white_space(c) ==> r == unicode_alphanumeric(c),
{
    c.is_alphanumeric()
}

/// `char::is_uppercase` (see `is_uppercase_char`).
#[verifier::external_body]
pub(crate) fn char_is_uppercase(c: char) -> (r: bool)
    ensures
        r == is_uppercase_char(c),
        (c as u32) >= 128 ==> r == unicode_uppercase(c),
{
    c.is_uppercase()
}

/// What `str::to_lowercase` gives for a string: its Unicode lowercase
/// mapping, a function of the whole string (a final capital sigma, for
/// one, maps by the letters around it).
pub uninterp spec fn unicode_lowercase(s: Seq<char>) -> Seq<char>;

/// `str::to_lowercase`; its result is named `unicode_lowercase`.
#[verifier::external_body]
pub(crate) fn str_to_lowercase(s: &str) -> (r: String)
    ensures
        r@ == unicode_lowercase(s@),
{
    s.to_lowercase()
}

/// The uppercase of an ASCII character: a small letter becomes its
/// capital, any other character stays.
pub open spec fn ascii_uppercase(c: char) -> char {
    if 'a' <= c && c <= 'z' { ((c as u32) - 32) as char } else { c }
}

/// The uppercase of an ASCII character (see `ascii_uppercase`).
pub fn ascii_to_uppercase(c: char) -> (r: char)
    requires
        (c as u32) < 128,
    ensures
        r == ascii_uppercase(c),
{
    if 'a' <= c && c <= 'z' {
        let b: u8 = c as u8;
        (b - 32) as char
    } else {
        c
    }
}

/// `String::push`: appends one character.
#[verifier::external_body]
pub(crate) fn push_char(s: &mut String, c: char)
    ensures
        final(s)@ == old(s)@.push(c),
{
    s.push(c)
}

/// The characters of a string slice, in order.
pub fn str_chars(s: &str) -> (r: Vec<char>)
    ensures
        r@ == s@,
{
    let n = s.unicode_len();
    let mut r: Vec<char> = Vec::new();
    let mut i: usize = 0;
    while i < n
        invariant
            n == s@.len(),
            i <= n,
            r@ == s@.subrange(0, i as int),
        decreases n - i,
    {
        let c = s.get_char(i);
        r.push(c);
        i = i + 1;
    }
    r
}

/// A `String` holding `a` followed by `b`.
pub fn concat_str(a: &str, b: &str) -> (r: String)
    ensures
        r@ == a@ + b@,
{
    let mut r = a.to_owned();
    r.append(b);
    r
}

/// Whether two string slices hold the same characters.
pub fn str_eq(a: &str, b: &str) -> (r: bool)
    ensures
        r == (a@ == b@),
{
    let x = a.to_owned();
    let y = b.to_owned();
    x == y
}

/// Whether `s` begins with `prefix`.
pub fn starts_with(s: &str, prefix: &str) -> (r: bool)
    ensures
        r == (prefix@.len() <= s@.len() && s@.subrange(0, prefix@.len() as int) == prefix@),
{
    let n = s.unicode_len();
    let m = prefix.unicode_len();
    if m > n {
        return false;
    }
    let mut i: usize = 0;
    while i < m
        invariant
            m == prefix@.len(),
            n == s@.len(),
            m <= n,
            i <= m,
            forall|j: int| 0 <= j < i ==> s@[j] == prefix@[j],
        decreases m - i,
    {
        if s.get_char(i) != prefix.get_char(i) {
            assert(s@.subrange(0, m as int)[i as int] != prefix@[i as int]);
            return false;
        }
        i = i + 1;
    }
    assert(s@.subrange(0, m as int) =~= prefix@);
    true
}

/// A copy of a list of strings.
pub fn clone_strings(v: &Vec<String>) -> (r: Vec<String>)
    ensures
        r@ == v@,
{
    let mut r: Vec<String> = Vec::new();
    let mut i: usize = 0;
    while i < v.len()
        invariant
            i <= v@.len(),
            r@ == v@.take(i as int),
        decreases v@.len() - i,
    {
        r.push(v[i].clone());
        assert(v@.take(i + 1) =~= v@.take(i as int).push(v@[i as int]));
        i = i + 1;
    }
    assert(v@.take(v@.len() as int) =~= v@);
    r
}

/// `s` with each occurrence of `p`, read from the left and not
/// overlapping, replaced by `q`.
pub open spec fn replaced(s: Seq<char>, p: Seq<char>, q: Seq<char>) -> Seq<char>
    decreases s.len(),
{
    if p.len() == 0 || s.len() < p.len() {
        s
    } else if s.subrange(0, p.len() as int) == p {
        q + replaced(s.subrange(p.len() as int, s.len() as int), p, q)
    } else {
        seq![s[0]] + replaced(s.subrange(1, s.len() as int), p, q)
    }
}

/// Replaces each occurrence of the non-empty `p` in `s` by `q` (see
/// `replaced`).
pub fn replace_all(s: &str, p: &str, q: &str) -> (r: String)
    requires
        p@.len() > 0,
    ensures
        r@ == replaced(s@, p@, q@),
{
    let cs = str_chars(s);
    let ps = str_chars(p);
    let n = cs.len();
    let m = ps.len();
    let mut r = String::new();
    let mut i: usize = 0;
    proof {
        assert(s@.subrange(0, n as int) =~= s@);
        assert(r@ + replaced(s@, p@, q@) =~= replaced(s@, p@, q@));
    }
    while i < n
        invariant
            cs@ == s@,
            ps@ == p@,
            n == s@.len(),
            m == p@.len(),
            m > 0,
            i <= n,
            r@ + replaced(s@.subrange(i as int, n as int), p@, q@) == replaced(s@, p@, q@),
        decreases n - i,
    {
        let ghost rest = s@.subrange(i as int, n as int);
        let mut matches = m <= n && i <= n - m;
        if matches {
            let mut k: usize = 0;
            while k < m
                invariant
                    cs@ == s@,
                    ps@ == p@,
                    n == s@.len(),
                    m == p@.len(),
                    i + m <= n,
                    k <= m,
                    matches == forall|l: int| 0 <= l < k ==> s@[i + l] == p@[l],
                decreases m - k,
            {
                if cs[i + k] != ps[k] {
                    matches = false;
                }
                k = k + 1;
            }
            proof {
                if matches {
                    assert(rest.subrange(0, m as int) =~= p@);
                } else {
                    let l = choose|l: int| 0 <= l < m && s@[i + l] != p@[l];
                    assert(rest.subrange(0, m as int)[l] != p@[l]);
                }
            }
        }
        if matches {
            r.append(q);
            proof {
                assert(rest.subrange(m as int, rest.len() as int) =~= s@.subrange(i + m, n as int));
            }
            i = i + m;
        } else {
            push_char(&mut r, cs[i]);
            proof {
                if rest.len() >= m {
                    assert(rest.subrange(0, m as int) != p@);
                }
                assert(rest.subrange(1, rest.len() as int) =~= s@.subrange(i + 1, n as int));
                assert(seq![rest[0]] =~= seq![s@[i as int]]);
            }
            i = i + 1;
        }
    }
    proof {
        assert(s@.subrange(n as int, n as int) =~= Seq::<char>::empty());
        assert(r@ + Seq::<char>::empty() =~= r@);
    }
    r
}
} // verus!
