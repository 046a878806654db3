//! Verified text manipulation for metadata entry names and value texts.
//!
//! Entry names carry a conventional `"component: "` marker which is stripped
//! before the remaining word is capitalized into a short type name.  Value
//! texts are unwrapped from enclosing parentheses and re-framed into the
//! constructor-call or nested-map syntax the catalog's deserializer accepts.

use vstd::prelude::*;
use vstd::string::*;

verus! {

/// The characters trimmed from both ends of a stripped entry name.
pub open spec fn is_space(c: char) -> bool {
    c == ' ' || c == '\t' || c == '\n' || c == '\r'
}

/// The characters stripped from both ends when unwrapping a parenthesized
/// value text.
pub open spec fn is_paren(c: char) -> bool {
    c == '(' || c == ')'
}

/// `pat` occurs in `s` starting at position `i`.
pub open spec fn matches_at_spec(s: Seq<char>, i: int, pat: Seq<char>) -> bool {
    0 <= i && i + pat.len() <= s.len() && s.subrange(i, i + pat.len() as int) == pat
}

/// `pat` occurs somewhere in `s`.
pub open spec fn contains_spec(s: Seq<char>, pat: Seq<char>) -> bool {
    exists|i: int| matches_at_spec(s, i, pat)
}

/// `s` ends with `pat`.
pub open spec fn ends_with_spec(s: Seq<char>, pat: Seq<char>) -> bool {
    pat.len() <= s.len() && s.subrange(s.len() - pat.len(), s.len() as int) == pat
}

fn matches_at(s: &str, i: usize, pat: &str) -> (r: bool)
    requires
        i <= s@.len(),
    ensures
        r == matches_at_spec(s@, i as int, pat@),
{
    let n = s.unicode_len();
    let m = pat.unicode_len();
    if m > n - i {
        proof {
            assert(!matches_at_spec(s@, i as int, pat@));
        }
        return false;
    }
    let mut j: usize = 0;
    while j < m
        invariant
            j <= m,
            i <= n,
            m <= n - i,
            n as nat == s@.len(),
            m as nat == pat@.len(),
            forall|k: int| 0 <= k < j ==> s@[i + k] == pat@[k],
        decreases m - j,
    {
        if s.get_char(i + j) != pat.get_char(j) {
            proof {
                if matches_at_spec(s@, i as int, pat@) {
                    let jj = j as int;
                    assert(s@.subrange(i as int, i + pat@.len() as int)[jj] == pat@[jj]);
                    assert(false);
                }
            }
            return false;
        }
        j += 1;
    }
    proof {
        assert(s@.subrange(i as int, i + pat@.len() as int) =~= pat@);
    }
    true
}

/// Whether `pat` occurs anywhere in `s`, as the naming convention's
/// substring test does.
pub fn str_contains(s: &str, pat: &str) -> (r: bool)
    ensures
        r == contains_spec(s@, pat@),
{
    let n = s.unicode_len();
    let m = pat.unicode_len();
    if m == 0 {
        proof {
            assert(s@.subrange(0, 0) =~= pat@);
            assert(matches_at_spec(s@, 0, pat@));
        }
        return true;
    }
    if m > n {
        return false;
    }
    let mut i: usize = 0;
    while i < n
        invariant
            i <= n,
            n as nat == s@.len(),
            m as nat == pat@.len(),
            1 <= m <= n,
            forall|k: int| 0 <= k < i ==> !matches_at_spec(s@, k, pat@),
        decreases n - i,
    {
        if matches_at(s, i, pat) {
            return true;
        }
        i += 1;
    }
    false
}

/// Whether `s` ends with `pat`, as the naming convention's suffix test does.
pub fn str_ends_with(s: &str, pat: &str) -> (r: bool)
    ensures
        r == ends_with_spec(s@, pat@),
{
    let n = s.unicode_len();
    let m = pat.unicode_len();
    if m > n {
        return false;
    }
    matches_at(s, n - m, pat)
}

/// Character-for-character equality of two strings.
pub fn str_eq(a: &str, b: &str) -> (r: bool)
    ensures
        r == (a@ == b@),
{
    let n = a.unicode_len();
    let m = b.unicode_len();
    if n != m {
        return false;
    }
    let r = matches_at(a, 0, b);
    proof {
        assert(a@.subrange(0, a@.len() as int) =~= a@);
    }
    r
}

/// The stripped entry name with all `"component: "` markers removed,
/// scanning left to right.
pub open spec fn remove_all_spec(s: Seq<char>, pat: Seq<char>) -> Seq<char>
    decreases s.len(),
{
    if pat.len() == 0 || s.len() == 0 {
        s
    } else if matches_at_spec(s, 0, pat) {
        remove_all_spec(s.skip(pat.len() as int), pat)
    } else {
        seq![s[0]] + remove_all_spec(s.skip(1), pat)
    }
}

/// Removes every occurrence of `pat` from `s`, left to right, without
/// rescanning text produced by a removal.
pub fn remove_occurrences(s: &str, pat: &str) -> (r: String)
    requires
        pat@.len() > 0,
    ensures
        r@ == remove_all_spec(s@, pat@),
{
    let n = s.unicode_len();
    let m = pat.unicode_len();
    let mut out = String::new();
    let mut i: usize = 0;
    proof {
        assert(s@.skip(0) =~= s@);
    }
    while i < n
        invariant
            i <= n,
            n as nat == s@.len(),
            m as nat == pat@.len(),
            m >= 1,
            remove_all_spec(s@, pat@) == out@ + remove_all_spec(s@.skip(i as int), pat@),
        decreases n - i,
    {
        let hit = matches_at(s, i, pat);
        proof {
            if i + m <= n {
                assert(s@.skip(i as int).subrange(0, pat@.len() as int) =~= s@.subrange(
                    i as int,
                    i + pat@.len() as int,
                ));
            }
            assert(matches_at_spec(s@.skip(i as int), 0, pat@) == matches_at_spec(
                s@,
                i as int,
                pat@,
            ));
        }
        if hit {
            proof {
                assert(s@.skip(i as int).skip(pat@.len() as int) =~= s@.skip(
                    i + pat@.len() as int,
                ));
            }
            i += m;
        } else {
            out.append(s.substring_char(i, i + 1));
            proof {
                assert(s@.skip(i as int)[0] == s@[i as int]);
                assert(s@.skip(i as int).skip(1) =~= s@.skip(i + 1));
                assert(s@.subrange(i as int, i + 1) =~= seq![s@[i as int]]);
                assert(out@ + remove_all_spec(s@.skip(i + 1), pat@) == remove_all_spec(
                    s@,
                    pat@,
                ));
            }
            i += 1;
        }
    }
    proof {
        assert(s@.skip(n as int) =~= Seq::<char>::empty());
    }
    out
}

/// The leading whitespace-trimmed remainder of `s`.
pub open spec fn ltrim_ws(s: Seq<char>) -> Seq<char>
    decreases s.len(),
{
    if s.len() > 0 && is_space(s[0]) {
        ltrim_ws(s.skip(1))
    } else {
        s
    }
}

/// The trailing whitespace-trimmed remainder of `s`.
pub open spec fn rtrim_ws(s: Seq<char>) -> Seq<char>
    decreases s.len(),
{
    if s.len() > 0 && is_space(s[s.len() - 1]) {
        rtrim_ws(s.take(s.len() - 1))
    } else {
        s
    }
}

/// `s` with whitespace removed from both ends.
pub open spec fn trim_spec(s: Seq<char>) -> Seq<char> {
    rtrim_ws(ltrim_ws(s))
}

fn is_space_char(c: char) -> (r: bool)
    ensures
        r == is_space(c),
{
    c == ' ' || c == '\t' || c == '\n' || c == '\r'
}

fn is_paren_char(c: char) -> (r: bool)
    ensures
        r == is_paren(c),
{
    c == '(' || c == ')'
}

/// Trims whitespace from both ends of `s`.
pub fn trim_ascii_ws(s: &str) -> (r: String)
    ensures
        r@ == trim_spec(s@),
{
    let n = s.unicode_len();
    let mut a: usize = 0;
    proof {
        assert(s@.skip(0) =~= s@);
    }
    while a < n && is_space_char(s.get_char(a))
        invariant
            a <= n,
            n as nat == s@.len(),
            ltrim_ws(s@) == ltrim_ws(s@.skip(a as int)),
        decreases n - a,
    {
        proof {
            assert(s@.skip(a as int).skip(1) =~= s@.skip(a + 1));
        }
        a += 1;
    }
    proof {
        assert(ltrim_ws(s@.skip(a as int)) == s@.skip(a as int));
        assert(s@.skip(a as int) =~= s@.subrange(a as int, n as int));
    }
    let mut b: usize = n;
    while b > a && is_space_char(s.get_char(b - 1))
        invariant
            a <= b <= n,
            n as nat == s@.len(),
            rtrim_ws(s@.subrange(a as int, n as int)) == rtrim_ws(
                s@.subrange(a as int, b as int),
            ),
        decreases b,
    {
        proof {
            assert(s@.subrange(a as int, b as int).take(b - a - 1) =~= s@.subrange(
                a as int,
                b - 1,
            ));
        }
        b -= 1;
    }
    proof {
        assert(rtrim_ws(s@.subrange(a as int, b as int)) == s@.subrange(a as int, b as int));
    }
    String::from_str(s.substring_char(a, b))
}

/// The leading paren-trimmed remainder of `s`.
pub open spec fn ltrim_paren(s: Seq<char>) -> Seq<char>
    decreases s.len(),
{
    if s.len() > 0 && is_paren(s[0]) {
        ltrim_paren(s.skip(1))
    } else {
        s
    }
}

/// The trailing paren-trimmed remainder of `s`.
pub open spec fn rtrim_paren(s: Seq<char>) -> Seq<char>
    decreases s.len(),
{
    if s.len() > 0 && is_paren(s[s.len() - 1]) {
        rtrim_paren(s.take(s.len() - 1))
    } else {
        s
    }
}

/// `s` with parenthesis characters removed from both ends: the interior of a
/// parenthesized value text.
pub open spec fn unwrap_parens_spec(s: Seq<char>) -> Seq<char> {
    rtrim_paren(ltrim_paren(s))
}

/// Removes enclosing parenthesis characters from both ends of a value text,
/// exposing the interior that is re-framed into constructor-call syntax.
pub fn unwrap_parens(s: &str) -> (r: String)
    ensures
        r@ == unwrap_parens_spec(s@),
{
    let n = s.unicode_len();
    let mut a: usize = 0;
    proof {
        assert(s@.skip(0) =~= s@);
    }
    while a < n && is_paren_char(s.get_char(a))
        invariant
            a <= n,
            n as nat == s@.len(),
            ltrim_paren(s@) == ltrim_paren(s@.skip(a as int)),
        decreases n - a,
    {
        proof {
            assert(s@.skip(a as int).skip(1) =~= s@.skip(a + 1));
        }
        a += 1;
    }
    proof {
        assert(ltrim_paren(s@.skip(a as int)) == s@.skip(a as int));
        assert(s@.skip(a as int) =~= s@.subrange(a as int, n as int));
    }
    let mut b: usize = n;
    while b > a && is_paren_char(s.get_char(b - 1))
        invariant
            a <= b <= n,
            n as nat == s@.len(),
            rtrim_paren(s@.subrange(a as int, n as int)) == rtrim_paren(
                s@.subrange(a as int, b as int),
            ),
        decreases b,
    {
        proof {
            assert(s@.subrange(a as int, b as int).take(b - a - 1) =~= s@.subrange(
                a as int,
                b - 1,
            ));
        }
        b -= 1;
    }
    proof {
        assert(rtrim_paren(s@.subrange(a as int, b as int)) == s@.subrange(
            a as int,
            b as int,
        ));
    }
    String::from_str(s.substring_char(a, b))
}

/// The first character of `s` raised to its upper-case ASCII form.
pub open spec fn upper_char(c: char) -> char {
    if c == 'a' {
        'A'
    } else if c == 'b' {
        'B'
    } else if c == 'c' {
        'C'
    } else if c == 'd' {
        'D'
    } else if c == 'e' {
        'E'
    } else if c == 'f' {
        'F'
    } else if c == 'g' {
        'G'
    } else if c == 'h' {
        'H'
    } else if c == 'i' {
        'I'
    } else if c == 'j' {
        'J'
    } else if c == 'k' {
        'K'
    } else if c == 'l' {
        'L'
    } else if c == 'm' {
        'M'
    } else if c == 'n' {
        'N'
    } else if c == 'o' {
        'O'
    } else if c == 'p' {
        'P'
    } else if c == 'q' {
        'Q'
    } else if c == 'r' {
        'R'
    } else if c == 's' {
        'S'
    } else if c == 't' {
        'T'
    } else if c == 'u' {
        'U'
    } else if c == 'v' {
        'V'
    } else if c == 'w' {
        'W'
    } else if c == 'x' {
        'X'
    } else if c == 'y' {
        'Y'
    } else if c == 'z' {
        'Z'
    } else {
        c
    }
}

/// `s` with its first character raised to upper case.
pub open spec fn capitalize_spec(s: Seq<char>) -> Seq<char> {
    if s.len() == 0 {
        s
    } else {
        seq![upper_char(s[0])] + s.skip(1)
    }
}

/// Capitalizes the first character of `s`, ASCII-wise; any other first
/// character is kept as it is.
pub fn capitalize_first_letter(s: &str) -> (r: String)
    ensures
        r@ == capitalize_spec(s@),
{
    let n = s.unicode_len();
    if n == 0 {
        proof {
            assert(s@ =~= Seq::<char>::empty());
        }
        return String::new();
    }
    let c = s.get_char(0);
    let head: &str = match c {
        'a' => "A",
        'b' => "B",
        'c' => "C",
        'd' => "D",
        'e' => "E",
        'f' => "F",
        'g' => "G",
        'h' => "H",
        'i' => "I",
        'j' => "J",
        'k' => "K",
        'l' => "L",
        'm' => "M",
        'n' => "N",
        'o' => "O",
        'p' => "P",
        'q' => "Q",
        'r' => "R",
        's' => "S",
        't' => "T",
        'u' => "U",
        'v' => "V",
        'w' => "W",
        'x' => "X",
        'y' => "Y",
        'z' => "Z",
        _ => s.substring_char(0, 1),
    };
    proof {
        reveal_strlit("A");
        reveal_strlit("B");
        reveal_strlit("C");
        reveal_strlit("D");
        reveal_strlit("E");
        reveal_strlit("F");
        reveal_strlit("G");
        reveal_strlit("H");
        reveal_strlit("I");
        reveal_strlit("J");
        reveal_strlit("K");
        reveal_strlit("L");
        reveal_strlit("M");
        reveal_strlit("N");
        reveal_strlit("O");
        reveal_strlit("P");
        reveal_strlit("Q");
        reveal_strlit("R");
        reveal_strlit("S");
        reveal_strlit("T");
        reveal_strlit("U");
        reveal_strlit("V");
        reveal_strlit("W");
        reveal_strlit("X");
        reveal_strlit("Y");
        reveal_strlit("Z");
        assert(s@.subrange(0, 1) =~= seq![s@[0]]);
        assert(head@ =~= seq![upper_char(s@[0])]);
    }
    let rest = s.substring_char(1, n);
    let r = String::from_str(head).concat(rest);
    proof {
        assert(s@.subrange(1, n as int) =~= s@.skip(1));
    }
    r
}

/// Unwrapping undoes wrapping: enclosing an interior free of leading or
/// trailing parenthesis characters in one pair of parentheses and trimming
/// gives the interior back.
pub proof fn lemma_unwrap_wrapped(t: Seq<char>)
    requires
        t.len() == 0 || (!is_paren(t[0]) && !is_paren(t[t.len() - 1])),
    ensures
        unwrap_parens_spec(seq!['('] + t + seq![')']) == t,
{
    let s = seq!['('] + t + seq![')'];
    assert(s[0] == '(');
    assert(s.skip(1) =~= t + seq![')']);
    if t.len() == 0 {
        assert(s.skip(1) =~= seq![')']);
        assert(seq![')'].skip(1) =~= Seq::<char>::empty());
        assert(ltrim_paren(s) == ltrim_paren(seq![')']));
        assert(ltrim_paren(seq![')']) == ltrim_paren(Seq::<char>::empty()));
        assert(ltrim_paren(Seq::<char>::empty()) == Seq::<char>::empty());
        assert(rtrim_paren(Seq::<char>::empty()) =~= t);
    } else {
        let u = t + seq![')'];
        assert(u[0] == t[0]);
        assert(ltrim_paren(s) == ltrim_paren(u));
        assert(ltrim_paren(u) == u);
        assert(u[u.len() - 1] == ')');
        assert(u.take(u.len() - 1) =~= t);
        assert(rtrim_paren(u) == rtrim_paren(t));
        assert(rtrim_paren(t) == t);
    }
}

/// The short type name derived from an entry name: marker tokens removed,
/// whitespace trimmed, first letter capitalized.
pub open spec fn derive_short_name(name: Seq<char>) -> Seq<char> {
    capitalize_spec(trim_spec(remove_all_spec(name, "component: "@)))
}

/// Derives the candidate short type name from a single-typed entry's name.
pub fn short_type_name(name: &str) -> (r: String)
    ensures
        r@ == derive_short_name(name@),
{
    proof {
        reveal_strlit("component: ");
    }
    let stripped = remove_occurrences(name, "component: ");
    let trimmed = trim_ascii_ws(stripped.as_str());
    capitalize_first_letter(trimmed.as_str())
}

/// The constructor-call syntax `Type(inner)` for a single-typed entry.
pub open spec fn single_frame_spec(ty: Seq<char>, inner: Seq<char>) -> Seq<char> {
    ty + "("@ + inner + ")"@
}

/// Frames a value interior into the `Type(inner)` syntax the type-directed
/// deserializer accepts.
pub fn single_frame(ty: &str, inner: &str) -> (r: String)
    ensures
        r@ == single_frame_spec(ty@, inner@),
{
    String::from_str(ty).concat("(").concat(inner).concat(")")
}

/// The one-field map syntax `{ "path":value }` for a nested entry.
pub open spec fn nested_frame_spec(path: Seq<char>, value: Seq<char>) -> Seq<char> {
    "{ \""@ + path + "\":"@ + value + " }"@
}

/// Frames a nested entry into the one-field map syntax the path-inferring
/// deserializer accepts.
pub fn nested_frame(path: &str, value: &str) -> (r: String)
    ensures
        r@ == nested_frame_spec(path@, value@),
{
    String::from_str("{ \"").concat(path).concat("\":").concat(value).concat(" }")
}

} // verus!
