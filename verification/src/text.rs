//! Text, as sequences of characters: the small operations that the rest of the
//! library builds its names, messages and tables from.
//!
//! Everything here works on Unicode scalar values, never on bytes.

use vstd::prelude::*;
use vstd::string::*;

verus! {

/// `String::push` appends one character.
pub assume_specification[ String::push ](s: &mut String, c: char)
    ensures
        final(s)@ == old(s)@.push(c),
;

/// `char::from_u32` is the character with that code point, where the code point
/// is a Unicode scalar value, and `None` for every other number.
pub assume_specification[ char::from_u32 ](i: u32) -> (r: Option<char>)
    ensures
        r == if is_scalar_value(i) {
            Some(i as char)
        } else {
            None
        },
;

/// Whether a number is a Unicode scalar value: any code point but a surrogate.
pub open spec fn is_scalar_value(i: u32) -> bool {
    i < 0xD800 || (0xE000 <= i && i < 0x110000)
}

// ---------------------------------------------------------------------------
// Characters
// ---------------------------------------------------------------------------

/// The characters with the Unicode `White_Space` property.
pub open spec fn whitespace(c: char) -> bool {
    ||| 0x09 <= c as u32 <= 0x0D
    ||| c as u32 == 0x20
    ||| c as u32 == 0x85
    ||| c as u32 == 0xA0
    ||| c as u32 == 0x1680
    ||| 0x2000 <= c as u32 <= 0x200A
    ||| c as u32 == 0x2028
    ||| c as u32 == 0x2029
    ||| c as u32 == 0x202F
    ||| c as u32 == 0x205F
    ||| c as u32 == 0x3000
}

/// Whether a character is white space.
pub fn is_whitespace(c: char) -> (r: bool)
    ensures
        r == whitespace(c),
{
    let n: u32 = c as u32;
    (0x09 <= n && n <= 0x0D) || n == 0x20 || n == 0x85 || n == 0xA0 || n == 0x1680 || (0x2000 <= n
        && n <= 0x200A) || n == 0x2028 || n == 0x2029 || n == 0x202F || n == 0x205F || n == 0x3000
}

/// `0` to `9`.
pub open spec fn ascii_digit(c: char) -> bool {
    '0' <= c <= '9'
}

/// `A` to `Z`.
pub open spec fn ascii_upper(c: char) -> bool {
    'A' <= c <= 'Z'
}

/// `a` to `z`, `A` to `Z` or `0` to `9`.
pub open spec fn ascii_alphanumeric(c: char) -> bool {
    ascii_digit(c) || ascii_upper(c) || 'a' <= c <= 'z'
}

/// Whether a character is an ASCII letter or digit.
pub fn is_ascii_alphanumeric(c: char) -> (r: bool)
    ensures
        r == ascii_alphanumeric(c),
{
    ('0' <= c && c <= '9') || ('A' <= c && c <= 'Z') || ('a' <= c && c <= 'z')
}

/// The lower-case form of an ASCII capital; any other character itself.
pub open spec fn lower_char(c: char) -> char {
    if ascii_upper(c) {
        (c as u32 + 32) as char
    } else {
        c
    }
}

/// The upper-case form of an ASCII small letter; any other character itself.
pub open spec fn upper_char(c: char) -> char {
    if 'a' <= c <= 'z' {
        (c as u32 - 32) as char
    } else {
        c
    }
}

/// Lower-case one ASCII character.
pub fn to_lower_char(c: char) -> (r: char)
    ensures
        r == lower_char(c),
{
    if 'A' <= c && c <= 'Z' {
        (c as u8 + 32u8) as char
    } else {
        c
    }
}

/// Upper-case one ASCII character.
pub fn to_upper_char(c: char) -> (r: char)
    ensures
        r == upper_char(c),
{
    if 'a' <= c && c <= 'z' {
        (c as u8 - 32u8) as char
    } else {
        c
    }
}

// ---------------------------------------------------------------------------
// Whole strings
// ---------------------------------------------------------------------------

/// The characters of a string.
pub fn chars_of(s: &str) -> (r: Vec<char>)
    ensures
        r@ == s@,
{
    let mut out: Vec<char> = Vec::new();
    for c in it: s.chars()
        invariant
            out@ == s@.take(it.index()),
            it.seq() == s@,
    {
        out.push(c);
        assert(s@.take(it.index() + 1) =~= s@.take(it.index()).push(c));
    }
    assert(s@.take(s@.len() as int) =~= s@);
    out
}

/// The string made of the characters from one index up to another.
pub fn string_of_range(cs: &[char], from: usize, to: usize) -> (r: String)
    requires
        from <= to <= cs@.len(),
    ensures
        r@ == cs@.subrange(from as int, to as int),
{
    let mut out = String::new();
    let mut i: usize = from;
    while i < to
        invariant
            from <= i <= to <= cs@.len(),
            out@ == cs@.subrange(from as int, i as int),
        decreases to - i,
    {
        out.push(cs[i]);
        assert(cs@.subrange(from as int, i + 1) =~= cs@.subrange(from as int, i as int).push(
            cs@[i as int],
        ));
        i += 1;
    }
    out
}

/// Whether two strings hold the same characters.
pub fn same_text(a: &str, b: &str) -> (r: bool)
    ensures
        r == (a@ == b@),
{
    let x = chars_of(a);
    let y = chars_of(b);
    if x.len() != y.len() {
        return false;
    }
    for i in 0..x.len()
        invariant
            x@ == a@,
            y@ == b@,
            x.len() == y.len(),
            forall|j: int| 0 <= j < i ==> x@[j] == y@[j],
    {
        if x[i] != y[i] {
            return false;
        }
    }
    assert(x@ =~= y@);
    true
}

/// A string with its ASCII capitals made small.
pub open spec fn lower(s: Seq<char>) -> Seq<char> {
    Seq::new(s.len(), |i: int| lower_char(s[i]))
}

/// Make the ASCII capitals of a string small.
pub fn to_lower(s: &str) -> (r: String)
    ensures
        r@ == lower(s@),
{
    let cs = chars_of(s);
    let mut out = String::new();
    for i in 0..cs.len()
        invariant
            cs@ == s@,
            out@ == lower(s@).take(i as int),
    {
        out.push(to_lower_char(cs[i]));
        assert(lower(s@).take(i + 1) =~= lower(s@).take(i as int).push(lower(s@)[i as int]));
    }
    assert(lower(s@).take(s@.len() as int) =~= lower(s@));
    out
}

/// A string without the white space it begins with.
pub open spec fn trim_start(s: Seq<char>) -> Seq<char>
    decreases s.len(),
{
    if s.len() > 0 && whitespace(s[0]) {
        trim_start(s.skip(1))
    } else {
        s
    }
}

/// A string without the white space it ends with.
pub open spec fn trim_end(s: Seq<char>) -> Seq<char>
    decreases s.len(),
{
    if s.len() > 0 && whitespace(s.last()) {
        trim_end(s.drop_last())
    } else {
        s
    }
}

/// A string without the white space at either end.
pub open spec fn trim(s: Seq<char>) -> Seq<char> {
    trim_start(trim_end(s))
}

// How much is taken off the end.
proof fn lemma_trim_end(s: Seq<char>) -> (n: int)
    ensures
        0 <= n <= s.len(),
        trim_end(s) == s.take(n),
        n > 0 ==> !whitespace(s[n - 1]),
        forall|k: int| n <= k < s.len() ==> whitespace(#[trigger] s[k]),
    decreases s.len(),
{
    if s.len() > 0 && whitespace(s.last()) {
        let n = lemma_trim_end(s.drop_last());
        assert(s.drop_last().take(n) =~= s.take(n));
        assert forall|k: int| n <= k < s.len() implies whitespace(#[trigger] s[k]) by {
            if k < s.len() - 1 {
                assert(s.drop_last()[k] == s[k]);
            }
        }
        n
    } else {
        assert(s.take(s.len() as int) =~= s);
        s.len() as int
    }
}

// How much is taken off the start.
proof fn lemma_trim_start(s: Seq<char>) -> (n: int)
    ensures
        0 <= n <= s.len(),
        trim_start(s) == s.skip(n),
        n < s.len() ==> !whitespace(s[n]),
        forall|k: int| 0 <= k < n ==> whitespace(#[trigger] s[k]),
    decreases s.len(),
{
    if s.len() > 0 && whitespace(s[0]) {
        let n = lemma_trim_start(s.skip(1)) + 1;
        assert(s.skip(1).skip(n - 1) =~= s.skip(n));
        assert forall|k: int| 0 <= k < n implies whitespace(#[trigger] s[k]) by {
            if k > 0 {
                assert(s.skip(1)[k - 1] == s[k]);
            }
        }
        if n < s.len() {
            assert(s.skip(1)[n - 1] == s[n]);
        }
        n
    } else {
        assert(s.skip(0) =~= s);
        0
    }
}

/// Trimming takes white space off both ends, all of it, and nothing else.
pub proof fn law_trimming_takes_off_white_space(s: Seq<char>)
    ensures
        exists|i: int, j: int|
            #![trigger s.subrange(i, j)]
            {
                &&& 0 <= i <= j <= s.len()
                &&& trim(s) == s.subrange(i, j)
                &&& forall|k: int| 0 <= k < i || j <= k < s.len() ==> whitespace(#[trigger] s[k])
            },
        trim(s).len() > 0 ==> !whitespace(trim(s)[0]) && !whitespace(trim(s).last()),
        trim(s).len() == 0 <==> forall|k: int| 0 <= k < s.len() ==> whitespace(#[trigger] s[k]),
{
    let j = lemma_trim_end(s);
    let i = lemma_trim_start(s.take(j));
    assert(trim(s) =~= s.subrange(i, j));
    assert forall|k: int| 0 <= k < i || j <= k < s.len() implies whitespace(#[trigger] s[k]) by {
        if k < i {
            assert(s.take(j)[k] == s[k]);
        }
    }
    if i < j {
        assert(s.take(j)[i] == s[i]);
        assert(trim(s)[0] == s[i]);
        assert(trim(s).last() == s[j - 1]);
    }
}

/// White space is what separates words in plain text, and no visible ASCII character.
pub proof fn law_white_space_is_invisible(c: char)
    ensures
        c == ' ' || c == '\t' || c == '\n' || c == '\r' || c == '\u{A0}' ==> whitespace(c),
        '!' <= c <= '~' ==> !whitespace(c),
        c as u32 > 0x3000 ==> !whitespace(c),
{
}

/// Lower case changes ASCII capitals to their small letters, and nothing else.
pub proof fn law_lower_case_changes_capitals_only(s: Seq<char>, i: int)
    requires
        0 <= i < s.len(),
    ensures
        lower(s).len() == s.len(),
        'A' <= s[i] <= 'Z' ==> lower(s)[i] as int - 'a' as int == s[i] as int - 'A' as int,
        !('A' <= s[i] <= 'Z') ==> lower(s)[i] == s[i],
{
}

/// Take the white space off the end of a string.
pub fn trimmed_end(s: &str) -> (r: String)
    ensures
        r@ == trim_end(s@),
{
    let cs = chars_of(s);
    let mut n: usize = cs.len();
    assert(cs@.take(n as int) =~= s@);
    while n > 0 && is_whitespace(cs[n - 1])
        invariant
            n <= cs@.len(),
            cs@ == s@,
            trim_end(cs@.take(n as int)) == trim_end(s@),
        decreases n,
    {
        assert(cs@.take(n as int).drop_last() =~= cs@.take(n - 1));
        n -= 1;
    }
    assert(cs@.subrange(0, n as int) =~= cs@.take(n as int));
    string_of_range(&cs, 0, n)
}

/// Take the white space off both ends of a string.
pub fn trimmed(s: &str) -> (r: String)
    ensures
        r@ == trim(s@),
{
    let t = trimmed_end(s);
    let cs = chars_of(&t);
    let mut i: usize = 0;
    assert(cs@.skip(0) =~= t@);
    while i < cs.len() && is_whitespace(cs[i])
        invariant
            i <= cs@.len(),
            cs@ == t@,
            trim_start(cs@.skip(i as int)) == trim_start(t@),
        decreases cs.len() - i,
    {
        assert(cs@.skip(i as int).skip(1) =~= cs@.skip(i + 1));
        i += 1;
    }
    assert(cs@.subrange(i as int, cs@.len() as int) =~= cs@.skip(i as int));
    string_of_range(&cs, i, cs.len())
}

/// What separators cut a string into: one piece more than there are separators.
pub open spec fn split(s: Seq<char>, sep: char) -> Seq<Seq<char>>
    decreases s.len(),
{
    if s.len() == 0 {
        seq![Seq::empty()]
    } else {
        let before = split(s.drop_last(), sep);
        if s.last() == sep {
            before.push(Seq::empty())
        } else {
            before.drop_last().push(before.last().push(s.last()))
        }
    }
}

/// The characters that a list of strings holds, string by string.
pub open spec fn texts(v: Seq<String>) -> Seq<Seq<char>> {
    v.map_values(|s: String| s@)
}

/// There is always a piece.
pub proof fn lemma_split_nonempty(s: Seq<char>, sep: char)
    ensures
        split(s, sep).len() > 0,
    decreases s.len(),
{
    if s.len() > 0 {
        lemma_split_nonempty(s.drop_last(), sep);
    }
}

/// Cut a string at every separator.
pub fn split_at(s: &str, sep: char) -> (r: Vec<String>)
    ensures
        texts(r@) == split(s@, sep),
{
    let cs = chars_of(s);
    let mut out: Vec<String> = Vec::new();
    let mut piece = String::new();
    assert(cs@.take(0) =~= Seq::empty());
    assert(split(cs@.take(0), sep) =~= texts(out@).push(piece@));
    for i in 0..cs.len()
        invariant
            cs@ == s@,
            split(cs@.take(i as int), sep) == texts(out@).push(piece@),
    {
        let ghost next = cs@.take(i + 1);
        assert(next.drop_last() =~= cs@.take(i as int));
        let ghost before = texts(out@).push(piece@);
        assert(before.drop_last() =~= texts(out@));
        if cs[i] == sep {
            let ghost done = out@;
            let ghost full = piece@;
            out.push(piece);
            piece = String::new();
            assert(texts(out@) =~= texts(done).push(full));
            assert(split(next, sep) =~= texts(out@).push(piece@));
        } else {
            piece.push(cs[i]);
            assert(split(next, sep) =~= texts(out@).push(piece@));
        }
    }
    assert(cs@.take(cs@.len() as int) =~= s@);
    let ghost done = out@;
    let ghost full = piece@;
    out.push(piece);
    assert(texts(out@) =~= texts(done).push(full));
    out
}

/// Strings in a row, with a separator between each and the next.
pub open spec fn join(parts: Seq<Seq<char>>, sep: Seq<char>) -> Seq<char>
    decreases parts.len(),
{
    if parts.len() == 0 {
        Seq::empty()
    } else if parts.len() == 1 {
        parts[0]
    } else {
        join(parts.drop_last(), sep) + sep + parts.last()
    }
}

/// A piece without the separator goes to the last piece.
pub proof fn lemma_split_append(s: Seq<char>, t: Seq<char>, sep: char)
    requires
        !t.contains(sep),
    ensures
        split(s + t, sep) == split(s, sep).drop_last().push(split(s, sep).last() + t),
    decreases t.len(),
{
    lemma_split_nonempty(s, sep);
    if t.len() == 0 {
        assert(s + t =~= s);
        assert(split(s, sep).last() + t =~= split(s, sep).last());
        assert(split(s, sep).drop_last().push(split(s, sep).last()) =~= split(s, sep));
    } else {
        let less = t.drop_last();
        assert(!less.contains(sep)) by {
            if less.contains(sep) {
                let i = choose|i: int| 0 <= i < less.len() && less[i] == sep;
                assert(t[i] == sep);
            }
        }
        lemma_split_append(s, less, sep);
        assert((s + t).drop_last() =~= s + less);
        assert((s + t).last() == t.last());
        assert(t.last() != sep) by {
            if t.last() == sep {
                assert(t[t.len() - 1] == sep);
            }
        }
        let before = split(s + less, sep);
        assert(before.drop_last() =~= split(s, sep).drop_last());
        assert(before.last().push(t.last()) =~= split(s, sep).last() + t);
    }
}

/// Strings without the separator that were put in a row come apart again.
pub proof fn lemma_split_join(parts: Seq<Seq<char>>, sep: char)
    requires
        parts.len() > 0,
        forall|i: int| 0 <= i < parts.len() ==> !(#[trigger] parts[i]).contains(sep),
    ensures
        split(join(parts, seq![sep]), sep) == parts,
    decreases parts.len(),
{
    if parts.len() == 1 {
        lemma_split_append(Seq::empty(), parts[0], sep);
        assert(Seq::<char>::empty() + parts[0] =~= parts[0]);
        assert(split(parts[0], sep) =~= parts);
    } else {
        let fewer = parts.drop_last();
        assert forall|i: int| 0 <= i < fewer.len() implies !(#[trigger] fewer[i]).contains(sep) by {
            assert(fewer[i] == parts[i]);
        }
        lemma_split_join(fewer, sep);
        let row = join(fewer, seq![sep]);
        let open = row + seq![sep];
        assert(open.drop_last() =~= row);
        assert(open.last() == sep);
        assert(split(open, sep) == fewer.push(Seq::empty()));
        assert(!parts.last().contains(sep)) by {
            assert(parts[parts.len() - 1] == parts.last());
        }
        lemma_split_append(open, parts.last(), sep);
        assert(fewer.push(Seq::<char>::empty()).drop_last() =~= fewer);
        assert(Seq::<char>::empty() + parts.last() =~= parts.last());
        assert(parts =~= fewer.push(parts.last()));
    }
}

/// Put strings in a row, with a separator between each and the next.
pub fn joined(parts: &[String], sep: &str) -> (r: String)
    ensures
        r@ == join(texts(parts@), sep@),
{
    let mut out = String::new();
    for i in 0..parts.len()
        invariant
            out@ == join(texts(parts@).take(i as int), sep@),
    {
        let ghost next = texts(parts@).take(i + 1);
        assert(next.drop_last() =~= texts(parts@).take(i as int));
        if i > 0 {
            out.append(sep);
        }
        out.append(parts[i].as_str());
    }
    assert(texts(parts@).take(parts@.len() as int) =~= texts(parts@));
    out
}

/// One string after another.
pub fn cat2(a: &str, b: &str) -> (r: String)
    ensures
        r@ == a@ + b@,
{
    let mut out = a.to_owned();
    out.append(b);
    out
}

/// Three strings in a row.
pub fn cat3(a: &str, b: &str, c: &str) -> (r: String)
    ensures
        r@ == a@ + b@ + c@,
{
    let mut out = cat2(a, b);
    out.append(c);
    out
}

/// Four strings in a row.
pub fn cat4(a: &str, b: &str, c: &str, d: &str) -> (r: String)
    ensures
        r@ == a@ + b@ + c@ + d@,
{
    let mut out = cat3(a, b, c);
    out.append(d);
    out
}

/// Five strings in a row.
pub fn cat5(a: &str, b: &str, c: &str, d: &str, e: &str) -> (r: String)
    ensures
        r@ == a@ + b@ + c@ + d@ + e@,
{
    let mut out = cat4(a, b, c, d);
    out.append(e);
    out
}

// ---------------------------------------------------------------------------
// Numbers
// ---------------------------------------------------------------------------

/// The character for one digit: `0` to `9`, then `A` to `F`.
pub open spec fn digit(d: nat) -> char {
    if d < 10 {
        (48 + d) as char
    } else {
        (55 + d) as char
    }
}

/// A number in decimal, without leading zeros.
pub open spec fn decimal(n: nat) -> Seq<char>
    decreases n,
{
    if n < 10 {
        seq![digit(n)]
    } else {
        decimal(n / 10).push(digit(n % 10))
    }
}

/// A number in decimal, with a minus sign in front of a negative one.
pub open spec fn signed_decimal(n: int) -> Seq<char> {
    if n < 0 {
        seq!['-'] + decimal((-n) as nat)
    } else {
        decimal(n as nat)
    }
}

/// A number in upper-case hexadecimal, with zeros in front up to a width.
pub open spec fn hex(n: nat, width: nat) -> Seq<char>
    decreases n, width,
{
    if n < 16 && width <= 1 {
        seq![digit(n)]
    } else {
        hex(n / 16, if width > 0 {
            (width - 1) as nat
        } else {
            0
        }).push(digit(n % 16))
    }
}

/// The character for one digit.
pub fn digit_char(d: u8) -> (c: char)
    requires
        d < 16,
    ensures
        c == digit(d as nat),
{
    if d < 10 {
        (48u8 + d) as char
    } else {
        (55u8 + d) as char
    }
}

/// Write a number in decimal.
pub fn decimal_text(n: u128) -> (r: String)
    ensures
        r@ == decimal(n as nat),
    decreases n,
{
    if n < 10 {
        let mut out = String::new();
        out.push(digit_char(n as u8));
        assert(out@ =~= seq![digit(n as nat)]);
        out
    } else {
        let mut out = decimal_text(n / 10);
        out.push(digit_char((n % 10) as u8));
        out
    }
}

/// A number in decimal, with zeros in front up to a width.
pub open spec fn padded(n: nat, width: nat) -> Seq<char>
    decreases n, width,
{
    if n < 10 && width <= 1 {
        seq![digit(n)]
    } else {
        padded(n / 10, if width > 0 {
            (width - 1) as nat
        } else {
            0
        }).push(digit(n % 10))
    }
}

/// Write a number in decimal, filled with zeros to a width.
pub fn padded_text(n: u32, width: u8) -> (r: String)
    ensures
        r@ == padded(n as nat, width as nat),
    decreases n, width,
{
    if n < 10 && width <= 1 {
        let mut out = String::new();
        out.push(digit_char(n as u8));
        assert(out@ =~= seq![digit(n as nat)]);
        out
    } else {
        let rest: u8 = if width > 0 {
            width - 1
        } else {
            0
        };
        let mut out = padded_text(n / 10, rest);
        out.push(digit_char((n % 10) as u8));
        out
    }
}

/// One more than the largest number with so many digits.
pub open spec fn ten_to(width: nat) -> nat
    decreases width,
{
    if width == 0 {
        1
    } else {
        10 * ten_to((width - 1) as nat)
    }
}

/// A number that is not too wide takes up the width it is filled to.
pub proof fn lemma_padded_width(n: nat, width: nat)
    requires
        width > 0,
        n < ten_to(width),
    ensures
        padded(n, width).len() == width,
    decreases width,
{
    reveal_with_fuel(ten_to, 2);
    if width > 1 {
        lemma_padded_width(n / 10, (width - 1) as nat);
    }
}

/// Write a signed number in decimal.
pub fn signed_decimal_text(n: i32) -> (r: String)
    ensures
        r@ == signed_decimal(n as int),
{
    if n < 0 {
        let mut out = String::new();
        out.push('-');
        let digits = decimal_text((-(n as i64)) as u128);
        out.append(digits.as_str());
        assert(out@ =~= seq!['-'] + decimal((-n) as nat));
        out
    } else {
        decimal_text(n as u128)
    }
}

/// Write a number in upper-case hexadecimal, filled with zeros to a width.
pub fn hex_text(n: u32, width: u8) -> (r: String)
    ensures
        r@ == hex(n as nat, width as nat),
    decreases n, width,
{
    if n < 16 && width <= 1 {
        let mut out = String::new();
        out.push(digit_char(n as u8));
        assert(out@ =~= seq![digit(n as nat)]);
        out
    } else {
        let rest: u8 = if width > 0 {
            width - 1
        } else {
            0
        };
        let mut out = hex_text(n / 16, rest);
        out.push(digit_char((n % 16) as u8));
        out
    }
}

/// What a character is worth as a digit, letters in either case counting on from
/// nine, where that is below the radix.
pub open spec fn digit_value(c: char, radix: nat) -> Option<nat> {
    let v = if '0' <= c <= '9' {
        Some((c as int - 48) as nat)
    } else if 'a' <= c <= 'z' {
        Some((c as int - 87) as nat)
    } else if 'A' <= c <= 'Z' {
        Some((c as int - 55) as nat)
    } else {
        None::<nat>
    };
    match v {
        Some(d) => if d < radix {
            Some(d)
        } else {
            None
        },
        None => None,
    }
}

/// Whether a string is nothing but digits, and not empty.
pub open spec fn all_digits(s: Seq<char>, radix: nat) -> bool {
    s.len() > 0 && forall|i: int| 0 <= i < s.len() ==> digit_value(#[trigger] s[i], radix) is Some
}

/// The number that digits stand for.
pub open spec fn digits_value(s: Seq<char>, radix: nat) -> nat
    decreases s.len(),
{
    if s.len() == 0 {
        0
    } else {
        digits_value(s.drop_last(), radix) * radix + digit_value(s.last(), radix)->0
    }
}

/// The number that a string stands for: digits, with at most a plus sign in front
/// of them.
pub open spec fn unsigned(s: Seq<char>, radix: nat) -> Option<nat> {
    let digits = if s.len() > 0 && s[0] == '+' {
        s.skip(1)
    } else {
        s
    };
    if all_digits(digits, radix) {
        Some(digits_value(digits, radix))
    } else {
        None
    }
}

/// A number written in decimal reads back as itself.
pub proof fn lemma_decimal_reads_back(n: nat)
    ensures
        all_digits(decimal(n), 10),
        digits_value(decimal(n), 10) == n,
        unsigned(decimal(n), 10) == Some(n),
        forall|i: int| 0 <= i < decimal(n).len() ==> ascii_digit(#[trigger] decimal(n)[i]),
    decreases n,
{
    if n < 10 {
        assert(decimal(n).drop_last() =~= Seq::empty());
        assert(decimal(n).last() == digit(n));
        assert(digits_value(Seq::<char>::empty(), 10) == 0);
    } else {
        lemma_decimal_reads_back(n / 10);
        assert(decimal(n).drop_last() =~= decimal(n / 10));
        assert(decimal(n).last() == digit(n % 10));
        assert forall|i: int| 0 <= i < decimal(n).len() implies ascii_digit(
            #[trigger] decimal(n)[i],
        ) by {
            if i < decimal(n).len() - 1 {
                assert(decimal(n)[i] == decimal(n / 10)[i]);
            }
        }
    }
    assert(ascii_digit(decimal(n)[0]));
}

/// Digits count up: from `0` to `9`, and from `A` to `F`, each is the next character
/// and is worth one more.
pub proof fn law_digits_count_up(d: nat)
    requires
        d < 16,
    ensures
        d < 10 ==> digit(d) as int == '0' as int + d,
        d >= 10 ==> digit(d) as int == 'A' as int + (d - 10),
        digit_value(digit(d), 16) == Some(d),
        d < 10 ==> digit_value(digit(d), 10) == Some(d),
{
}

/// The number that a text with a sign in front stands for.
pub open spec fn signed_value(s: Seq<char>) -> int {
    if s.len() > 0 && s[0] == '-' {
        -(digits_value(s.skip(1), 10) as int)
    } else {
        digits_value(s, 10) as int
    }
}

/// A number with a sign reads back as itself, and is written with digits and at most
/// a minus sign in front.
pub proof fn law_signed_decimal_reads_back(n: int)
    ensures
        signed_value(signed_decimal(n)) == n,
        forall|i: int|
            0 <= i < signed_decimal(n).len() ==> {
                ||| '0' <= #[trigger] signed_decimal(n)[i] <= '9'
                ||| i == 0 && n < 0 && signed_decimal(n)[i] == '-'
            },
{
    let m = if n < 0 {
        (-n) as nat
    } else {
        n as nat
    };
    lemma_decimal_reads_back(m);
    assert(decimal(m).len() > 0);
    if n < 0 {
        assert(signed_decimal(n).skip(1) =~= decimal(m));
        assert forall|i: int| 1 <= i < signed_decimal(n).len() implies '0'
            <= #[trigger] signed_decimal(n)[i] <= '9' by {
            assert(ascii_digit(decimal(m)[i - 1]));
        }
    } else {
        assert(ascii_digit(decimal(m)[0]));
        assert forall|i: int| 0 <= i < signed_decimal(n).len() implies '0'
            <= #[trigger] signed_decimal(n)[i] <= '9' by {
            assert(ascii_digit(decimal(m)[i]));
        }
    }
}

/// A number is written in decimal without zeros in front.
pub proof fn law_decimal_has_no_zeros_in_front(n: nat)
    ensures
        decimal(n).len() > 0,
        n > 0 ==> decimal(n)[0] != '0',
        n == 0 ==> decimal(n) == seq!['0'],
    decreases n,
{
    if n >= 10 {
        law_decimal_has_no_zeros_in_front(n / 10);
        assert(decimal(n)[0] == decimal(n / 10)[0]);
    }
}

/// A number filled up with zeros reads back as itself, and is as wide as it was to be
/// at least.
pub proof fn law_padded_reads_back(n: nat, width: nat)
    ensures
        digits_value(padded(n, width), 10) == n,
        padded(n, width).len() >= width,
        padded(n, width).len() > 0,
        forall|i: int|
            0 <= i < padded(n, width).len() ==> '0' <= #[trigger] padded(n, width)[i] <= '9',
    decreases n, width,
{
    if n < 10 && width <= 1 {
        assert(padded(n, width).drop_last() =~= Seq::empty());
        assert(digits_value(Seq::<char>::empty(), 10) == 0);
        assert(padded(n, width).last() == digit(n));
    } else {
        let less = if width > 0 {
            (width - 1) as nat
        } else {
            0
        };
        law_padded_reads_back(n / 10, less);
        assert(padded(n, width).drop_last() =~= padded(n / 10, less));
        assert(padded(n, width).last() == digit(n % 10));
        assert forall|i: int| 0 <= i < padded(n, width).len() implies '0' <= #[trigger] padded(
            n,
            width,
        )[i] <= '9' by {
            if i < padded(n, width).len() - 1 {
                assert(padded(n, width)[i] == padded(n / 10, less)[i]);
            }
        }
    }
}

/// A number in hexadecimal reads back as itself, is as wide as it was to be at least,
/// and has no small letters.
pub proof fn law_hex_reads_back(n: nat, width: nat)
    ensures
        digits_value(hex(n, width), 16) == n,
        hex(n, width).len() >= width,
        hex(n, width).len() > 0,
        forall|i: int|
            0 <= i < hex(n, width).len() ==> {
                ||| '0' <= #[trigger] hex(n, width)[i] <= '9'
                ||| 'A' <= hex(n, width)[i] <= 'F'
            },
    decreases n, width,
{
    if n < 16 && width <= 1 {
        assert(hex(n, width).drop_last() =~= Seq::empty());
        assert(digits_value(Seq::<char>::empty(), 16) == 0);
        assert(hex(n, width).last() == digit(n));
    } else {
        let less = if width > 0 {
            (width - 1) as nat
        } else {
            0
        };
        law_hex_reads_back(n / 16, less);
        assert(hex(n, width).drop_last() =~= hex(n / 16, less));
        assert(hex(n, width).last() == digit(n % 16));
        assert forall|i: int| 0 <= i < hex(n, width).len() implies {
            ||| '0' <= #[trigger] hex(n, width)[i] <= '9'
            ||| 'A' <= hex(n, width)[i] <= 'F'
        } by {
            if i < hex(n, width).len() - 1 {
                assert(hex(n, width)[i] == hex(n / 16, less)[i]);
            }
        }
    }
}

/// A number that is not too wide takes up the width it is filled to.
pub proof fn lemma_hex_width(n: nat, width: nat)
    requires
        width > 0,
        n < sixteen_to(width),
    ensures
        hex(n, width).len() == width,
    decreases width,
{
    reveal_with_fuel(sixteen_to, 9);
    if width > 1 {
        lemma_hex_width(n / 16, (width - 1) as nat);
    }
}

/// One more than the largest number with so many hexadecimal digits.
pub open spec fn sixteen_to(width: nat) -> nat
    decreases width,
{
    if width == 0 {
        1
    } else {
        16 * sixteen_to((width - 1) as nat)
    }
}

/// What a character is worth as a digit.
pub fn value_of_digit(c: char, radix: u8) -> (r: Option<u8>)
    requires
        radix <= 36,
    ensures
        match r {
            Some(d) => digit_value(c, radix as nat) == Some(d as nat),
            None => digit_value(c, radix as nat) is None,
        },
{
    let d: u8 = if '0' <= c && c <= '9' {
        c as u8 - 48
    } else if 'a' <= c && c <= 'z' {
        c as u8 - 87
    } else if 'A' <= c && c <= 'Z' {
        c as u8 - 55
    } else {
        return None;
    };
    if d < radix {
        Some(d)
    } else {
        None
    }
}

// A digit more never makes a number smaller.
proof fn lemma_digit_grows(v: nat, radix: nat, d: nat)
    requires
        radix >= 1,
    ensures
        v * radix + d >= v,
{
    assert(v * radix >= v) by (nonlinear_arith)
        requires
            radix >= 1,
    ;
}

/// Read digits from an index on, unless the number is above a limit.
pub fn digits_from(cs: &[char], from: usize, radix: u8, max: u32) -> (r: Option<u32>)
    requires
        from <= cs@.len(),
        1 <= radix <= 36,
    ensures
        match r {
            Some(n) => all_digits(cs@.skip(from as int), radix as nat) && n == digits_value(
                cs@.skip(from as int),
                radix as nat,
            ) && n <= max,
            None => !all_digits(cs@.skip(from as int), radix as nat) || digits_value(
                cs@.skip(from as int),
                radix as nat,
            ) > max,
        },
{
    let ghost s = cs@.skip(from as int);
    if from == cs.len() {
        return None;
    }
    let mut v: u64 = 0;
    let mut i: usize = from;
    assert(digits_value(s.take(0), radix as nat) == 0);
    while i < cs.len()
        invariant
            from <= i <= cs@.len(),
            1 <= radix <= 36,
            s == cs@.skip(from as int),
            forall|j: int| 0 <= j < i - from ==> digit_value(#[trigger] s[j], radix as nat) is Some,
            v <= max ==> v == digits_value(s.take(i - from), radix as nat),
            v > max ==> digits_value(s.take(i - from), radix as nat) > max,
        decreases cs@.len() - i,
    {
        assert(s[i - from] == cs@[i as int]);
        let d: u8 = match value_of_digit(cs[i], radix) {
            Some(d) => d,
            None => return None,
        };
        assert(s.take(i - from + 1).drop_last() =~= s.take(i - from));
        proof {
            lemma_digit_grows(
                digits_value(s.take(i - from), radix as nat),
                radix as nat,
                d as nat,
            );
        }
        if v <= max as u64 {
            assert(v * radix <= 0xFFFF_FFFFu64 * 36) by (nonlinear_arith)
                requires
                    v <= 0xFFFF_FFFFu64,
                    radix <= 36,
            ;
            v = v * radix as u64 + d as u64;
        }
        i += 1;
    }
    assert(s.take(s.len() as int) =~= s);
    if v <= max as u64 {
        Some(v as u32)
    } else {
        None
    }
}

/// Read a number, unless it is above a limit.
pub fn parse_unsigned(s: &str, radix: u8, max: u32) -> (r: Option<u32>)
    requires
        1 <= radix <= 36,
    ensures
        match r {
            Some(n) => unsigned(s@, radix as nat) == Some(n as nat) && n <= max,
            None => match unsigned(s@, radix as nat) {
                Some(n) => n > max,
                None => true,
            },
        },
{
    let cs = chars_of(s);
    if cs.len() > 0 && cs[0] == '+' {
        digits_from(cs.as_slice(), 1, radix, max)
    } else {
        assert(cs@.skip(0) =~= s@);
        digits_from(cs.as_slice(), 0, radix, max)
    }
}

// ---------------------------------------------------------------------------
// Order
// ---------------------------------------------------------------------------

/// The order of strings: by the first character in which they differ, and a
/// string before any longer one that it begins.
pub open spec fn before(a: Seq<char>, b: Seq<char>) -> bool
    decreases a.len(),
{
    if b.len() == 0 {
        false
    } else if a.len() == 0 {
        true
    } else {
        a[0] < b[0] || (a[0] == b[0] && before(a.skip(1), b.skip(1)))
    }
}

/// Whether one string comes before another.
pub fn comes_before(a: &str, b: &str) -> (r: bool)
    ensures
        r == before(a@, b@),
{
    let x = chars_of(a);
    let y = chars_of(b);
    let mut i: usize = 0;
    assert(x@.skip(0) =~= a@ && y@.skip(0) =~= b@);
    while i < x.len() && i < y.len()
        invariant
            i <= x@.len(),
            i <= y@.len(),
            x@ == a@,
            y@ == b@,
            before(x@.skip(i as int), y@.skip(i as int)) == before(a@, b@),
        decreases x.len() - i,
    {
        assert(x@.skip(i as int).skip(1) =~= x@.skip(i + 1));
        assert(y@.skip(i as int).skip(1) =~= y@.skip(i + 1));
        if x[i] < y[i] {
            return true;
        }
        if y[i] < x[i] {
            return false;
        }
        i += 1;
    }
    i < y.len()
}

/// One string comes before another if it has the lesser character where they first
/// differ, or if it is where the other begins.
pub proof fn law_the_first_difference_decides(a: Seq<char>, b: Seq<char>, i: int)
    requires
        0 <= i <= a.len(),
        i <= b.len(),
        a.take(i) == b.take(i),
    ensures
        i < a.len() && i < b.len() && a[i] < b[i] ==> before(a, b) && !before(b, a),
        i == a.len() && i < b.len() ==> before(a, b) && !before(b, a),
    decreases i,
{
    if i > 0 {
        assert(a.take(i)[0] == a[0] && b.take(i)[0] == b[0]);
        assert(a.skip(1).take(i - 1) =~= a.take(i).skip(1));
        assert(b.skip(1).take(i - 1) =~= b.take(i).skip(1));
        law_the_first_difference_decides(a.skip(1), b.skip(1), i - 1);
    }
}

/// No string comes before itself.
pub proof fn lemma_before_irreflexive(a: Seq<char>)
    ensures
        !before(a, a),
    decreases a.len(),
{
    if a.len() > 0 {
        lemma_before_irreflexive(a.skip(1));
    }
}

/// The order is transitive.
pub proof fn lemma_before_transitive(a: Seq<char>, b: Seq<char>, c: Seq<char>)
    requires
        before(a, b),
        before(b, c),
    ensures
        before(a, c),
    decreases a.len(),
{
    if a.len() > 0 && a[0] == b[0] && b[0] == c[0] {
        lemma_before_transitive(a.skip(1), b.skip(1), c.skip(1));
    }
}

/// Of two different strings one comes first.
pub proof fn lemma_before_total(a: Seq<char>, b: Seq<char>)
    ensures
        a == b || before(a, b) || before(b, a),
    decreases a.len(),
{
    if a.len() == 0 || b.len() == 0 {
        assert(a.len() == 0 && b.len() == 0 ==> a =~= b);
    } else if a[0] == b[0] {
        lemma_before_total(a.skip(1), b.skip(1));
        if a.skip(1) == b.skip(1) {
            assert(a =~= seq![a[0]] + a.skip(1));
            assert(b =~= seq![b[0]] + b.skip(1));
        }
    }
}

} // verus!
