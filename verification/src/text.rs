//! Character-level helpers on strings: prefixes, suffixes, whitespace
//! splitting and lower-case hexadecimal.
use vstd::prelude::*;

verus! {

/// `p` is a prefix of `s`.
pub open spec fn has_prefix(s: Seq<char>, p: Seq<char>) -> bool {
    p.len() <= s.len() && s.take(p.len() as int) == p
}

/// `p` is a suffix of `s`.
pub open spec fn has_suffix(s: Seq<char>, p: Seq<char>) -> bool {
    p.len() <= s.len() && s.skip(s.len() - p.len()) == p
}

/// What `str::strip_prefix` gives back: the rest of `s` after `p`, if `p` is a prefix.
pub open spec fn without_prefix(s: Seq<char>, p: Seq<char>) -> Option<Seq<char>> {
    if has_prefix(s, p) {
        Some(s.skip(p.len() as int))
    } else {
        None
    }
}

/// What `str::strip_suffix` gives back: `s` without its suffix `p`, if `p` is a suffix.
pub open spec fn without_suffix(s: Seq<char>, p: Seq<char>) -> Option<Seq<char>> {
    if has_suffix(s, p) {
        Some(s.take(s.len() - p.len()))
    } else {
        None
    }
}

/// The Unicode `White_Space` property, the set of characters that
/// `char::is_whitespace` and `str::split_whitespace` treat as whitespace.
pub open spec fn is_white_space(c: char) -> bool {
    let u = c as u32;
    ||| 0x09 <= u <= 0x0d
    ||| u == 0x20
    ||| u == 0x85
    ||| u == 0xa0
    ||| u == 0x1680
    ||| 0x2000 <= u <= 0x200a
    ||| u == 0x2028
    ||| u == 0x2029
    ||| u == 0x202f
    ||| u == 0x205f
    ||| u == 0x3000
}

/// Scanning `s` from the left: the words completed so far and the word being read.
pub open spec fn word_scan(s: Seq<char>) -> (Seq<Seq<char>>, Seq<char>)
    decreases s.len(),
{
    if s.len() == 0 {
        (Seq::empty(), Seq::empty())
    } else {
        let (done, cur) = word_scan(s.drop_last());
        let c = s.last();
        if is_white_space(c) {
            if cur.len() > 0 {
                (done.push(cur), Seq::empty())
            } else {
                (done, cur)
            }
        } else {
            (done, cur.push(c))
        }
    }
}

/// The maximal runs of non-whitespace characters of `s`, in order
/// (what `str::split_whitespace` yields).
pub open spec fn words(s: Seq<char>) -> Seq<Seq<char>> {
    let (done, cur) = word_scan(s);
    if cur.len() > 0 {
        done.push(cur)
    } else {
        done
    }
}

/// The lower-case hexadecimal digit for `d < 16`.
pub open spec fn hex_digit(d: nat) -> char {
    if d < 10 {
        (('0' as u32) + d) as char
    } else {
        (('a' as u32) + (d - 10)) as char
    }
}

/// `n` written in lower-case hexadecimal without leading zeros (what `{:x}` prints).
pub open spec fn lower_hex(n: nat) -> Seq<char>
    decreases n,
{
    if n < 16 {
        seq![hex_digit(n)]
    } else {
        lower_hex(n / 16).push(hex_digit(n % 16))
    }
}

/// Appends one character to a string.
#[verifier::external_body]
pub(crate) fn push_char(s: &mut String, c: char)
    ensures
        final(s)@ == old(s)@.push(c),
{
    s.push(c);
}

/// The characters of `s`, in order.
pub fn chars_of(s: &str) -> (r: Vec<char>)
    ensures
        r@ == s@,
{
    let mut out: Vec<char> = Vec::new();
    for c in it: s.chars()
        invariant
            it.seq() == s@,
            out@ == it.seq().take(it.index() as int),
    {
        out.push(c);
    }
    out
}

/// The string made of the characters `cs[from..to]`.
pub fn string_of(cs: &[char], from: usize, to: usize) -> (r: String)
    requires
        from <= to <= cs@.len(),
    ensures
        r@ == cs@.subrange(from as int, to as int),
{
    let mut out = String::new();
    let mut i = from;
    while i < to
        invariant
            from <= i <= to <= cs@.len(),
            out@ == cs@.subrange(from as int, i as int),
        decreases to - i,
    {
        push_char(&mut out, cs[i]);
        i = i + 1;
    }
    out
}

/// A copy of `s`.
pub fn copy_str(s: &str) -> (r: String)
    ensures
        r@ == s@,
{
    let cs = chars_of(s);
    string_of(cs.as_slice(), 0, cs.len())
}

/// Whether the two strings hold the same characters.
pub fn same_text(a: &str, b: &str) -> (r: bool)
    ensures
        r == (a@ == b@),
{
    let x = chars_of(a);
    let y = chars_of(b);
    if x.len() != y.len() {
        return false;
    }
    let mut i: usize = 0;
    while i < x.len()
        invariant
            x@ == a@,
            y@ == b@,
            x@.len() == y@.len(),
            i <= x@.len(),
            forall|k: int| 0 <= k < i ==> x@[k] == y@[k],
        decreases x.len() - i,
    {
        if x[i] != y[i] {
            return false;
        }
        i = i + 1;
    }
    assert(x@ =~= y@);
    true
}

/// Whether `p` is a prefix of `s`, on characters.
fn chars_have_prefix(s: &Vec<char>, p: &Vec<char>) -> (r: bool)
    ensures
        r == has_prefix(s@, p@),
{
    if p.len() > s.len() {
        return false;
    }
    let mut i: usize = 0;
    while i < p.len()
        invariant
            p@.len() <= s@.len(),
            i <= p@.len(),
            forall|k: int| 0 <= k < i ==> s@[k] == p@[k],
        decreases p.len() - i,
    {
        if s[i] != p[i] {
            assert(s@.take(p@.len() as int)[i as int] != p@[i as int]);
            return false;
        }
        i = i + 1;
    }
    assert(s@.take(p@.len() as int) =~= p@);
    true
}

/// `str::strip_prefix`: the rest of `s` after `p`, if `s` starts with `p`.
pub fn strip_prefix(s: &str, p: &str) -> (r: Option<String>)
    ensures
        r matches Some(t) ==> without_prefix(s@, p@) == Some(t@),
        r is None ==> without_prefix(s@, p@) is None,
{
    let sc = chars_of(s);
    let pc = chars_of(p);
    if chars_have_prefix(&sc, &pc) {
        let t = string_of(sc.as_slice(), pc.len(), sc.len());
        assert(t@ =~= s@.skip(p@.len() as int));
        Some(t)
    } else {
        None
    }
}

/// `str::strip_suffix`: `s` without its end `p`, if `s` ends with `p`.
pub fn strip_suffix(s: &str, p: &str) -> (r: Option<String>)
    ensures
        r matches Some(t) ==> without_suffix(s@, p@) == Some(t@),
        r is None ==> without_suffix(s@, p@) is None,
{
    let sc = chars_of(s);
    let pc = chars_of(p);
    if pc.len() > sc.len() {
        return None;
    }
    let start = sc.len() - pc.len();
    let mut j: usize = start;
    while j < sc.len()
        invariant
            start + pc@.len() == sc@.len(),
            sc@ == s@,
            pc@ == p@,
            start <= j <= sc@.len(),
            forall|k: int| start <= k < j ==> sc@[k] == pc@[k - start],
        decreases sc.len() - j,
    {
        if sc[j] != pc[j - start] {
            assert(s@.skip(start as int)[j - start] != p@[j - start]);
            return None;
        }
        j = j + 1;
    }
    assert(s@.skip(start as int) =~= p@);
    let t = string_of(sc.as_slice(), 0, start);
    assert(t@ =~= s@.take(start as int));
    Some(t)
}

/// Whether `c` has the Unicode `White_Space` property.
pub fn is_whitespace_char(c: char) -> (r: bool)
    ensures
        r == is_white_space(c),
{
    let u = c as u32;
    (0x09 <= u && u <= 0x0d) || u == 0x20 || u == 0x85 || u == 0xa0 || u == 0x1680 || (0x2000
        <= u && u <= 0x200a) || u == 0x2028 || u == 0x2029 || u == 0x202f || u == 0x205f || u
        == 0x3000
}

/// `str::split_whitespace`: the words of `s`, in order.
pub fn split_whitespace(s: &str) -> (r: Vec<String>)
    ensures
        r@.map_values(|w: String| w@) == words(s@),
{
    let cs = chars_of(s);
    let mut done: Vec<String> = Vec::new();
    let mut start: usize = 0;
    let mut i: usize = 0;
    while i < cs.len()
        invariant
            cs@ == s@,
            start <= i <= cs@.len(),
            done@.map_values(|w: String| w@) == word_scan(cs@.take(i as int)).0,
            cs@.subrange(start as int, i as int) == word_scan(cs@.take(i as int)).1,
        decreases cs.len() - i,
    {
        let ghost before = cs@.take(i as int);
        assert(cs@.take(i + 1).drop_last() =~= before);
        assert(cs@.take(i + 1).last() == cs@[i as int]);
        if is_whitespace_char(cs[i]) {
            if start < i {
                let w = string_of(cs.as_slice(), start, i);
                done.push(w);
                assert(done@.map_values(|w: String| w@) =~= word_scan(before).0.push(
                    word_scan(before).1,
                ));
            }
            start = i + 1;
            assert(cs@.subrange(start as int, i + 1) =~= Seq::<char>::empty());
        } else {
            assert(cs@.subrange(start as int, i + 1) =~= cs@.subrange(start as int, i as int).push(
                cs@[i as int],
            ));
        }
        i = i + 1;
    }
    assert(cs@.take(cs@.len() as int) =~= cs@);
    if start < cs.len() {
        let w = string_of(cs.as_slice(), start, cs.len());
        done.push(w);
        assert(done@.map_values(|w: String| w@) =~= words(s@));
    }
    done
}

/// The character for the hexadecimal digit `d < 16`.
fn hex_digit_char(d: u64) -> (c: char)
    requires
        d < 16,
    ensures
        c == hex_digit(d as nat),
{
    let table: [char; 16] = [
        '0',
        '1',
        '2',
        '3',
        '4',
        '5',
        '6',
        '7',
        '8',
        '9',
        'a',
        'b',
        'c',
        'd',
        'e',
        'f',
    ];
    let c = table[d as usize];
    assert(c == hex_digit(d as nat)) by {
        assert(table@[d as int] == c);
    }
    c
}

/// `n` in lower-case hexadecimal, as `format!("{:x}", n)` writes it.
pub fn to_lower_hex(n: u64) -> (r: String)
    ensures
        r@ == lower_hex(n as nat),
{
    let mut digits: Vec<char> = Vec::new();
    let mut m: u64 = n;
    // digits holds the low digits of n, least significant first
    while m >= 16
        invariant
            lower_hex(n as nat) == lower_hex(m as nat) + digits@.reverse(),
        decreases m,
    {
        let d = hex_digit_char(m % 16);
        proof {
            assert(lower_hex(m as nat) == lower_hex((m / 16) as nat).push(hex_digit((m % 16) as nat)));
            assert(digits@.push(d).reverse() =~= seq![d] + digits@.reverse());
            assert(lower_hex(m as nat) + digits@.reverse() =~= lower_hex((m / 16) as nat) + (seq![d]
                + digits@.reverse()));
        }
        digits.push(d);
        m = m / 16;
    }
    digits.push(hex_digit_char(m));
    let mut out = String::new();
    let mut i = digits.len();
    while i > 0
        invariant
            i <= digits@.len(),
            lower_hex(n as nat) == digits@.reverse(),
            out@ == digits@.reverse().take((digits@.len() - i) as int),
        decreases i,
    {
        i = i - 1;
        push_char(&mut out, digits[i]);
        assert(digits@.reverse().take((digits@.len() - i) as int) =~= digits@.reverse().take(
            (digits@.len() - i - 1) as int,
        ).push(digits@[i as int]));
    }
    assert(out@ =~= digits@.reverse());
    out
}

} // verus!
