//! Sequences of bytes and characters: splitting, joining, comparing and formatting.

use vstd::prelude::*;

verus! {

/// Pieces of `s` between occurrences of `sep`. An empty sequence has one empty piece.
pub open spec fn split_at_sep<T>(s: Seq<T>, sep: T) -> Seq<Seq<T>>
    decreases s.len(),
{
    if s.len() == 0 {
        seq![Seq::<T>::empty()]
    } else {
        let init = split_at_sep(s.drop_last(), sep);
        if s.last() == sep {
            init.push(Seq::<T>::empty())
        } else {
            init.update(init.len() - 1, init.last().push(s.last()))
        }
    }
}

/// The pieces in order, with `sep` between neighbours.
pub open spec fn join_with<T>(pieces: Seq<Seq<T>>, sep: Seq<T>) -> Seq<T>
    decreases pieces.len(),
{
    if pieces.len() == 0 {
        Seq::<T>::empty()
    } else if pieces.len() == 1 {
        pieces[0]
    } else {
        join_with(pieces.drop_last(), sep) + sep + pieces.last()
    }
}

/// There is always at least one piece.
pub proof fn lemma_split_nonempty<T>(s: Seq<T>, sep: T)
    ensures
        split_at_sep(s, sep).len() > 0,
    decreases s.len(),
{
    if s.len() > 0 {
        lemma_split_nonempty(s.drop_last(), sep);
    }
}

/// No piece contains the separator.
pub proof fn lemma_split_pieces_free_of_sep<T>(s: Seq<T>, sep: T)
    ensures
        forall|i: int, j: int|
            0 <= i < split_at_sep(s, sep).len() && 0 <= j < split_at_sep(s, sep)[i].len()
                ==> #[trigger] split_at_sep(s, sep)[i][j] != sep,
    decreases s.len(),
{
    if s.len() > 0 {
        lemma_split_nonempty(s.drop_last(), sep);
        lemma_split_pieces_free_of_sep(s.drop_last(), sep);
        let init = split_at_sep(s.drop_last(), sep);
        let all = split_at_sep(s, sep);
        assert forall|i: int, j: int| 0 <= i < all.len() && 0 <= j < all[i].len() implies
            #[trigger] all[i][j] != sep by {
            if s.last() == sep {
                if i < init.len() {
                    assert(all[i] == init[i]);
                    assert(init[i][j] != sep);
                }
            } else if i == init.len() - 1 {
                if j < init.last().len() {
                    assert(init[i][j] != sep);
                }
            } else {
                assert(all[i] == init[i]);
                assert(init[i][j] != sep);
            }
        }
    }
}

/// A sequence without the separator is its own only piece.
pub proof fn lemma_split_without_sep<T>(s: Seq<T>, sep: T)
    requires
        !s.contains(sep),
    ensures
        split_at_sep(s, sep) == seq![s],
    decreases s.len(),
{
    if s.len() > 0 {
        let init = s.drop_last();
        assert(!init.contains(sep)) by {
            if init.contains(sep) {
                let i = choose|i: int| 0 <= i < init.len() && init[i] == sep;
                assert(s[i] == sep);
            }
        }
        lemma_split_without_sep(init, sep);
        assert(s.contains(s.last()));
        assert(init.push(s.last()) =~= s);
        assert(split_at_sep(s, sep) =~= seq![s]);
    } else {
        assert(s =~= Seq::<T>::empty());
    }
}

/// Splitting what was glued together with one separator.
pub proof fn lemma_split_concat<T>(a: Seq<T>, sep: T, b: Seq<T>)
    requires
        !b.contains(sep),
    ensures
        split_at_sep(a + seq![sep] + b, sep) == split_at_sep(a, sep).push(b),
    decreases b.len(),
{
    let s = a + seq![sep] + b;
    if b.len() == 0 {
        assert(s.drop_last() =~= a);
        assert(b =~= Seq::<T>::empty());
    } else {
        let b0 = b.drop_last();
        assert(!b0.contains(sep)) by {
            if b0.contains(sep) {
                let i = choose|i: int| 0 <= i < b0.len() && b0[i] == sep;
                assert(b[i] == sep);
            }
        }
        lemma_split_concat(a, sep, b0);
        assert(s.drop_last() =~= a + seq![sep] + b0);
        assert(b.contains(b.last()));
        assert(s.last() == b.last());
        assert(b0.push(b.last()) =~= b);
        assert(split_at_sep(s, sep) =~= split_at_sep(a, sep).push(b));
    }
}

/// Splitting undoes joining when no piece holds the separator.
pub proof fn lemma_split_join<T>(pieces: Seq<Seq<T>>, sep: T)
    requires
        pieces.len() > 0,
        forall|i: int| 0 <= i < pieces.len() ==> !(#[trigger] pieces[i]).contains(sep),
    ensures
        split_at_sep(join_with(pieces, seq![sep]), sep) == pieces,
    decreases pieces.len(),
{
    if pieces.len() == 1 {
        lemma_split_without_sep(pieces[0], sep);
        assert(pieces =~= seq![pieces[0]]);
    } else {
        let init = pieces.drop_last();
        assert forall|i: int| 0 <= i < init.len() implies !(#[trigger] init[i]).contains(sep) by {
            assert(init[i] == pieces[i]);
        }
        lemma_split_join(init, sep);
        lemma_split_concat(join_with(init, seq![sep]), sep, pieces.last());
        assert(init.push(pieces.last()) =~= pieces);
    }
}

/// One more element filtered at the end.
pub proof fn lemma_filter_push<T>(s: Seq<T>, x: T, keep: spec_fn(T) -> bool)
    ensures
        s.push(x).filter(keep) == (if keep(x) {
            s.filter(keep).push(x)
        } else {
            s.filter(keep)
        }),
{
    reveal(Seq::filter);
    assert(s.push(x).drop_last() =~= s);
}

/// Element-wise view of a list of byte strings.
pub open spec fn byte_strings(v: Seq<Vec<u8>>) -> Seq<Seq<u8>> {
    v.map_values(|b: Vec<u8>| b@)
}

/// Whether two byte strings hold the same bytes.
pub fn bytes_eq(a: &[u8], b: &[u8]) -> (r: bool)
    ensures
        r == (a@ == b@),
{
    if a.len() != b.len() {
        return false;
    }
    let mut i: usize = 0;
    while i < a.len()
        invariant
            i <= a.len(),
            a.len() == b.len(),
            forall|j: int| 0 <= j < i ==> a@[j] == b@[j],
        decreases a.len() - i,
    {
        if a[i] != b[i] {
            return false;
        }
        i = i + 1;
    }
    assert(a@ =~= b@);
    true
}

/// A copy of a byte string.
pub fn bytes_clone(a: &[u8]) -> (r: Vec<u8>)
    ensures
        r@ == a@,
{
    let mut out: Vec<u8> = Vec::new();
    let mut i: usize = 0;
    while i < a.len()
        invariant
            i <= a.len(),
            out@ == a@.take(i as int),
        decreases a.len() - i,
    {
        out.push(a[i]);
        i = i + 1;
        assert(out@ =~= a@.take(i as int));
    }
    assert(a@.take(a.len() as int) =~= a@);
    out
}

/// Pieces of `b` between occurrences of `sep`.
pub fn split_bytes(b: &[u8], sep: u8) -> (r: Vec<Vec<u8>>)
    ensures
        byte_strings(r@) == split_at_sep(b@, sep),
{
    let mut done: Vec<Vec<u8>> = Vec::new();
    let mut cur: Vec<u8> = Vec::new();
    let mut i: usize = 0;
    assert(b@.take(0) =~= Seq::<u8>::empty());
    assert(byte_strings(done@).push(cur@) =~= split_at_sep(b@.take(0), sep));
    while i < b.len()
        invariant
            i <= b.len(),
            byte_strings(done@).push(cur@) == split_at_sep(b@.take(i as int), sep),
        decreases b.len() - i,
    {
        let c: u8 = b[i];
        proof {
            assert(b@.take(i + 1).drop_last() =~= b@.take(i as int));
            assert(b@.take(i + 1).last() == c);
        }
        let ghost before = byte_strings(done@).push(cur@);
        if c == sep {
            let ghost piece = cur@;
            let ghost old_done = done@;
            let mut fresh: Vec<u8> = Vec::new();
            std::mem::swap(&mut fresh, &mut cur);
            done.push(fresh);
            assert(byte_strings(done@) =~= byte_strings(old_done).push(piece));
            assert(cur@ =~= Seq::<u8>::empty());
        } else {
            let ghost piece = cur@;
            cur.push(c);
            assert(byte_strings(done@).push(cur@) =~= before.update(
                before.len() - 1,
                before.last().push(c),
            ));
        }
        i = i + 1;
    }
    assert(b@.take(b.len() as int) =~= b@);
    let ghost old_done = done@;
    let ghost piece = cur@;
    done.push(cur);
    assert(byte_strings(done@) =~= byte_strings(old_done).push(piece));
    done
}

/// The pieces with one `sep` byte between neighbours.
pub fn join_bytes(pieces: &Vec<Vec<u8>>, sep: u8) -> (r: Vec<u8>)
    ensures
        r@ == join_with(byte_strings(pieces@), seq![sep]),
{
    let ghost all = byte_strings(pieces@);
    let mut out: Vec<u8> = Vec::new();
    let mut i: usize = 0;
    assert(all.take(0) =~= Seq::<Seq<u8>>::empty());
    while i < pieces.len()
        invariant
            i <= pieces.len(),
            all == byte_strings(pieces@),
            out@ == join_with(all.take(i as int), seq![sep]),
        decreases pieces.len() - i,
    {
        let ghost before = out@;
        if i > 0 {
            out.push(sep);
        }
        let ghost mid = out@;
        let piece: &Vec<u8> = &pieces[i];
        let mut j: usize = 0;
        while j < piece.len()
            invariant
                j <= piece.len(),
                out@ == mid + piece@.take(j as int),
            decreases piece.len() - j,
        {
            out.push(piece[j]);
            j = j + 1;
            assert(out@ =~= mid + piece@.take(j as int));
        }
        proof {
            assert(piece@.take(piece.len() as int) =~= piece@);
            assert(all.take(i + 1).drop_last() =~= all.take(i as int));
            assert(all.take(i + 1).last() == piece@);
            if i > 0 {
                assert(mid =~= before + seq![sep]);
            } else {
                assert(out@ =~= piece@);
            }
        }
        i = i + 1;
    }
    assert(all.take(all.len() as int) =~= all);
    out
}

/// Whether `c` is one of the ten ASCII digits.
pub open spec fn is_digit(c: char) -> bool {
    '0' <= c <= '9'
}

/// Whether all characters are digits.
pub open spec fn all_digits(s: Seq<char>) -> bool {
    forall|i: int| 0 <= i < s.len() ==> is_digit(#[trigger] s[i])
}

/// Decimal value of a sequence of digits.
pub open spec fn digits_value(s: Seq<char>) -> nat
    decreases s.len(),
{
    if s.len() == 0 {
        0
    } else {
        digits_value(s.drop_last()) * 10 + (s.last() as nat - '0' as nat) as nat
    }
}

/// A decimal number that fits `max`: digits with an optional plus sign in front.
pub open spec fn decimal_value(s: Seq<char>, max: nat) -> Option<nat> {
    let digits = if s.len() > 0 && s[0] == '+' {
        s.skip(1)
    } else {
        s
    };
    if digits.len() > 0 && all_digits(digits) && digits_value(digits) <= max {
        Some(digits_value(digits))
    } else {
        None
    }
}

proof fn lemma_digits_prefix(s: Seq<char>, i: int)
    requires
        0 <= i <= s.len(),
        all_digits(s),
    ensures
        digits_value(s.take(i)) <= digits_value(s),
    decreases s.len() - i,
{
    if i < s.len() {
        lemma_digits_prefix(s, i + 1);
        assert(s.take(i + 1).drop_last() =~= s.take(i));
    } else {
        assert(s.take(i) =~= s);
    }
}

/// Reads a decimal number of at most `max`.
pub fn parse_decimal(s: &str, max: u64) -> (r: Option<u64>)
    ensures
        r matches Some(n) ==> decimal_value(s@, max as nat) == Some(n as nat),
        r is None <==> decimal_value(s@, max as nat) is None,
{
    let chars = str_chars(s);
    let start: usize = if chars.len() > 0 && chars[0] == '+' {
        1
    } else {
        0
    };
    let ghost digits = chars@.skip(start as int);
    proof {
        if start == 0 {
            assert(digits =~= chars@);
        }
    }
    if start == chars.len() {
        return None;
    }
    let mut value: u64 = 0;
    let mut i: usize = start;
    while i < chars.len()
        invariant
            start <= i <= chars.len(),
            start < chars.len(),
            digits == chars@.skip(start as int),
            chars@ == s@,
            digits == (if s@.len() > 0 && s@[0] == '+' {
                s@.skip(1)
            } else {
                s@
            }),
            forall|k: int| 0 <= k < i - start ==> is_digit(#[trigger] digits[k]),
            value <= max,
            value == digits_value(digits.take(i - start)),
        decreases chars.len() - i,
    {
        let c: char = chars[i];
        assert(digits[i - start] == c);
        if !('0' <= c && c <= '9') {
            assert(!is_digit(digits[i - start]));
            return None;
        }
        let d: u64 = (c as u32 - '0' as u32) as u64;
        proof {
            assert(digits.take(i + 1 - start).drop_last() =~= digits.take(i - start));
        }
        let wide: u128 = value as u128 * 10 + d as u128;
        if wide > max as u128 {
            proof {
                if all_digits(digits) {
                    lemma_digits_prefix(digits, i + 1 - start);
                }
            }
            return None;
        }
        value = wide as u64;
        i = i + 1;
    }
    assert(digits.take(digits.len() as int) =~= digits);
    Some(value)
}

/// What reading a byte string as UTF-8 gives when every invalid part is replaced by
/// U+FFFD.
pub uninterp spec fn lossy_utf8(bytes: Seq<u8>) -> Seq<char>;

/// `String::from_utf8_lossy` is a function of the bytes alone, and decodes valid UTF-8
/// unchanged.
#[verifier::external_body]
pub(crate) fn utf8_lossy(bytes: &[u8]) -> (r: String)
    ensures
        r@ == lossy_utf8(bytes@),
        vstd::utf8::valid_utf8(bytes@) ==> r@ == vstd::utf8::decode_utf8(bytes@),
{
    String::from_utf8_lossy(bytes).into_owned()
}

/// `String::push` appends one character at the end.
pub assume_specification[ String::push ](s: &mut String, c: char)
    ensures
        final(s)@ == old(s)@.push(c),
;

/// The characters of a string.
pub fn str_chars(s: &str) -> (r: Vec<char>)
    ensures
        r@ == s@,
{
    let mut out: Vec<char> = Vec::new();
    for c in it: s.chars()
        invariant
            it.seq() == s@,
            out@ == s@.take(it.index() as int),
    {
        out.push(c);
        assert(out@ =~= s@.take(it.index() + 1));
    }
    assert(s@.take(s@.len() as int) =~= s@);
    out
}

/// The string made of `chars`.
pub fn string_of(chars: &[char]) -> (r: String)
    ensures
        r@ == chars@,
{
    let mut out: String = String::new();
    let mut i: usize = 0;
    assert(out@ =~= chars@.take(0));
    while i < chars.len()
        invariant
            i <= chars.len(),
            out@ == chars@.take(i as int),
        decreases chars.len() - i,
    {
        out.push(chars[i]);
        i = i + 1;
        assert(out@ =~= chars@.take(i as int));
    }
    assert(chars@.take(chars.len() as int) =~= chars@);
    out
}

/// What a byte string reads as where it is valid UTF-8.
pub open spec fn utf8_text(bytes: Seq<u8>) -> Option<Seq<char>> {
    if vstd::utf8::valid_utf8(bytes) {
        Some(vstd::utf8::decode_utf8(bytes))
    } else {
        None
    }
}

/// `std::str::from_utf8` accepts exactly the valid UTF-8 byte strings and decodes them.
#[verifier::external_body]
pub(crate) fn utf8_checked(bytes: &[u8]) -> (r: Option<String>)
    ensures
        opt_view(r) == utf8_text(bytes@),
{
    std::str::from_utf8(bytes).ok().map(|s| s.to_owned())
}

/// Appends `tail`.
pub fn push_text(out: &mut String, tail: &str)
    ensures
        final(out)@ == old(out)@ + tail@,
{
    let chars = str_chars(tail);
    let ghost start = out@;
    let mut i: usize = 0;
    assert(out@ =~= start + chars@.take(0));
    while i < chars.len()
        invariant
            i <= chars.len(),
            out@ == start + chars@.take(i as int),
        decreases chars.len() - i,
    {
        out.push(chars[i]);
        i = i + 1;
        assert(out@ =~= start + chars@.take(i as int));
    }
    assert(chars@.take(i as int) =~= chars@);
}

/// Two strings, one behind the other.
pub fn concat2(a: &str, b: &str) -> (r: String)
    ensures
        r@ == a@ + b@,
{
    let mut out = a.to_owned();
    push_text(&mut out, b);
    out
}

/// The digit of a value below ten.
pub open spec fn digit_char(d: nat) -> char {
    ('0' as nat + d) as char
}

/// Decimal digits of a number, without leading zeros.
pub open spec fn decimal(n: nat) -> Seq<char>
    decreases n,
{
    if n < 10 {
        seq![digit_char(n)]
    } else {
        decimal(n / 10).push(digit_char(n % 10))
    }
}

/// The character of one hexadecimal digit, in lower case.
pub open spec fn hex_char(d: nat) -> char {
    if d < 10 {
        ('0' as nat + d) as char
    } else {
        ('a' as nat + (d - 10)) as char
    }
}

/// The lowest `width` hexadecimal digits of a number.
pub open spec fn hex_digits(n: nat, width: nat) -> Seq<char>
    decreases width,
{
    if width == 0 {
        Seq::empty()
    } else {
        hex_digits(n / 16, (width - 1) as nat).push(hex_char(n % 16))
    }
}

pub(crate) fn digit_of(d: u128) -> (r: char)
    requires
        d < 10,
    ensures
        r == digit_char(d as nat),
{
    ('0' as u8 + d as u8) as char
}

fn hex_of(d: u64) -> (r: char)
    requires
        d < 16,
    ensures
        r == hex_char(d as nat),
{
    if d < 10 {
        ('0' as u8 + d as u8) as char
    } else {
        ('a' as u8 + (d - 10) as u8) as char
    }
}

/// Writes a number in decimal.
pub fn format_decimal(n: u128) -> (r: String)
    ensures
        r@ == decimal(n as nat),
    decreases n,
{
    if n < 10 {
        let mut out = String::new();
        out.push(digit_of(n));
        assert(out@ =~= decimal(n as nat));
        out
    } else {
        let mut out = format_decimal(n / 10);
        out.push(digit_of(n % 10));
        out
    }
}

/// Writes the lowest `width` hexadecimal digits of a number.
pub fn format_hex(n: u64, width: u32) -> (r: String)
    ensures
        r@ == hex_digits(n as nat, width as nat),
    decreases width,
{
    if width == 0 {
        let out = String::new();
        assert(out@ =~= hex_digits(n as nat, 0));
        out
    } else {
        let mut out = format_hex(n / 16, width - 1);
        out.push(hex_of(n % 16));
        out
    }
}

/// Hexadecimal digits determine the number that they were written from.
pub proof fn lemma_hex_injective(a: nat, b: nat, width: nat)
    requires
        hex_digits(a, width) == hex_digits(b, width),
        a < vstd::arithmetic::power::pow(16, width),
        b < vstd::arithmetic::power::pow(16, width),
    ensures
        a == b,
    decreases width,
{
    if width == 0 {
        reveal(vstd::arithmetic::power::pow);
    } else {
        let w = (width - 1) as nat;
        let x = hex_digits(a / 16, w);
        let y = hex_digits(b / 16, w);
        assert(hex_digits(a, width).drop_last() =~= x);
        assert(hex_digits(b, width).drop_last() =~= y);
        assert(hex_digits(a, width).last() == hex_char(a % 16));
        assert(hex_digits(b, width).last() == hex_char(b % 16));
        assert(a % 16 == b % 16);
        reveal(vstd::arithmetic::power::pow);
        lemma_hex_injective(a / 16, b / 16, w);
    }
}

/// The length of the hexadecimal form.
pub proof fn lemma_hex_len(n: nat, width: nat)
    ensures
        hex_digits(n, width).len() == width,
    decreases width,
{
    if width > 0 {
        lemma_hex_len(n / 16, (width - 1) as nat);
    }
}

/// `n` spaces.
pub open spec fn spaces(n: int) -> Seq<char> {
    Seq::new(
        if n > 0 {
            n as nat
        } else {
            0
        },
        |i: int| ' ',
    )
}

/// `s` filled up with spaces behind it to at least `width` characters.
pub open spec fn padded_right(s: Seq<char>, width: int) -> Seq<char> {
    s + spaces(width - s.len())
}

/// `s` filled up with spaces in front to at least `width` characters.
pub open spec fn padded_left(s: Seq<char>, width: int) -> Seq<char> {
    spaces(width - s.len()) + s
}

fn char_count(s: &str) -> (r: usize)
    ensures
        r == s@.len(),
{
    str_chars(s).len()
}

fn push_spaces(out: &mut String, n: usize)
    ensures
        final(out)@ == old(out)@ + spaces(n as int),
{
    let ghost start = out@;
    let mut i: usize = 0;
    assert(out@ =~= start + spaces(0));
    while i < n
        invariant
            i <= n,
            out@ =~= start + spaces(i as int),
        decreases n - i,
    {
        out.push(' ');
        i = i + 1;
    }
}

/// Fills up with spaces on the right.
pub fn pad_right(s: &str, width: usize) -> (r: String)
    ensures
        r@ == padded_right(s@, width as int),
{
    let n: usize = char_count(s);
    let mut out = s.to_owned();
    if n < width {
        push_spaces(&mut out, width - n);
    }
    assert(out@ =~= padded_right(s@, width as int));
    out
}

/// Fills up with spaces on the left.
pub fn pad_left(s: &str, width: usize) -> (r: String)
    ensures
        r@ == padded_left(s@, width as int),
{
    let n: usize = char_count(s);
    let mut out = String::new();
    if n < width {
        push_spaces(&mut out, width - n);
    }
    push_text(&mut out, s);
    assert(out@ =~= padded_left(s@, width as int));
    out
}

/// The strings in order, with `sep` between neighbours.
pub fn join_strings(pieces: &Vec<String>, sep: &str) -> (r: String)
    ensures
        r@ == join_with(strings_view(pieces@), sep@),
{
    let ghost all = strings_view(pieces@);
    let mut out = String::new();
    let mut i: usize = 0;
    assert(all.take(0) =~= Seq::<Seq<char>>::empty());
    assert(out@ =~= Seq::<char>::empty());
    while i < pieces.len()
        invariant
            i <= pieces.len(),
            all == strings_view(pieces@),
            out@ == join_with(all.take(i as int), sep@),
        decreases pieces.len() - i,
    {
        let ghost before = out@;
        proof {
            assert(all.take(i + 1).drop_last() =~= all.take(i as int));
            assert(all.take(i + 1).last() == pieces@[i as int]@);
        }
        if i > 0 {
            push_text(&mut out, sep);
        }
        push_text(&mut out, pieces[i].as_str());
        proof {
            if i > 0 {
                assert(out@ =~= before + sep@ + pieces@[i as int]@);
            } else {
                assert(out@ =~= pieces@[0]@);
            }
        }
        i = i + 1;
    }
    assert(all.take(all.len() as int) =~= all);
    out
}

/// Every occurrence of the pair `a`, `b` replaced by `c`, from left to right.
pub open spec fn pair_replaced(s: Seq<char>, a: char, b: char, c: char) -> Seq<char>
    decreases s.len(),
{
    if s.len() == 0 {
        s
    } else if s.len() >= 2 && s[0] == a && s[1] == b {
        seq![c] + pair_replaced(s.skip(2), a, b, c)
    } else {
        seq![s[0]] + pair_replaced(s.skip(1), a, b, c)
    }
}

/// Replaces every occurrence of the pair `a`, `b` by `c`, from left to right.
pub fn replace_pair(s: &Vec<char>, a: char, b: char, c: char) -> (r: Vec<char>)
    ensures
        r@ == pair_replaced(s@, a, b, c),
{
    let mut out: Vec<char> = Vec::new();
    let mut i: usize = 0;
    assert(s@.skip(0) =~= s@);
    while i < s.len()
        invariant
            i <= s.len(),
            out@ + pair_replaced(s@.skip(i as int), a, b, c) == pair_replaced(s@, a, b, c),
        decreases s.len() - i,
    {
        let ghost before = out@;
        let ghost rest = s@.skip(i as int);
        if s.len() - i >= 2 && s[i] == a && s[i + 1] == b {
            out.push(c);
            assert(rest.skip(2) =~= s@.skip(i + 2));
            i = i + 2;
            assert(out@ + pair_replaced(s@.skip(i as int), a, b, c) =~= before + pair_replaced(
                rest,
                a,
                b,
                c,
            ));
        } else {
            out.push(s[i]);
            assert(rest.skip(1) =~= s@.skip(i + 1));
            i = i + 1;
            assert(out@ + pair_replaced(s@.skip(i as int), a, b, c) =~= before + pair_replaced(
                rest,
                a,
                b,
                c,
            ));
        }
    }
    assert(out@ =~= out@ + pair_replaced(s@.skip(i as int), a, b, c));
    out
}

/// `s` without the quotes that it begins with.
pub open spec fn without_leading_quotes(s: Seq<char>) -> Seq<char>
    decreases s.len(),
{
    if s.len() > 0 && s[0] == '"' {
        without_leading_quotes(s.skip(1))
    } else {
        s
    }
}

/// `s` without the quotes that it ends with.
pub open spec fn without_trailing_quotes(s: Seq<char>) -> Seq<char>
    decreases s.len(),
{
    if s.len() > 0 && s.last() == '"' {
        without_trailing_quotes(s.drop_last())
    } else {
        s
    }
}

/// `s` without the quotes at both of its ends.
pub open spec fn without_quotes(s: Seq<char>) -> Seq<char> {
    without_trailing_quotes(without_leading_quotes(s))
}

/// Takes all quotes off both ends.
pub fn trim_quotes(s: &str) -> (r: String)
    ensures
        r@ == without_quotes(s@),
{
    let chars = str_chars(s);
    let mut start: usize = 0;
    assert(chars@.skip(0) =~= chars@);
    while start < chars.len() && chars[start] == '"'
        invariant
            start <= chars.len(),
            without_leading_quotes(chars@) == without_leading_quotes(chars@.skip(start as int)),
        decreases chars.len() - start,
    {
        assert(chars@.skip(start as int).skip(1) =~= chars@.skip(start + 1));
        start = start + 1;
    }
    let ghost rest = chars@.skip(start as int);
    assert(without_leading_quotes(chars@) == rest);
    let mut end: usize = chars.len();
    assert(chars@.subrange(start as int, end as int) =~= rest);
    while end > start && chars[end - 1] == '"'
        invariant
            start <= end <= chars.len(),
            without_trailing_quotes(rest) == without_trailing_quotes(
                chars@.subrange(start as int, end as int),
            ),
        decreases end,
    {
        assert(chars@.subrange(start as int, end as int).drop_last() =~= chars@.subrange(
            start as int,
            end - 1,
        ));
        end = end - 1;
    }
    let mut out = String::new();
    let mut i: usize = start;
    assert(out@ =~= chars@.subrange(start as int, i as int));
    while i < end
        invariant
            start <= i <= end <= chars.len(),
            out@ =~= chars@.subrange(start as int, i as int),
        decreases end - i,
    {
        out.push(chars[i]);
        i = i + 1;
    }
    out
}

/// How Rust writes a string for debugging: in quotes, with escapes.
pub uninterp spec fn debug_quoted(s: Seq<char>) -> Seq<char>;

/// Formatting a string with `{:?}` is a function of the string alone.
#[verifier::external_body]
pub(crate) fn debug_text(s: &str) -> (r: String)
    ensures
        r@ == debug_quoted(s@),
{
    format!("{:?}", s)
}

/// Element-wise view of a list of strings.
pub open spec fn strings_view(v: Seq<String>) -> Seq<Seq<char>> {
    v.map_values(|s: String| s@)
}

/// View of an optional string.
pub open spec fn opt_view(s: Option<String>) -> Option<Seq<char>> {
    match s {
        Some(s) => Some(s@),
        None => None,
    }
}

/// Whether `list` holds `name`.
pub fn list_contains(list: &Vec<String>, name: &str) -> (r: bool)
    ensures
        r == strings_view(list@).contains(name@),
{
    let mut i: usize = 0;
    while i < list.len()
        invariant
            i <= list.len(),
            forall|k: int| 0 <= k < i ==> strings_view(list@)[k] != name@,
        decreases list.len() - i,
    {
        if str_eq(list[i].as_str(), name) {
            assert(strings_view(list@)[i as int] == name@);
            return true;
        }
        i = i + 1;
    }
    false
}

/// Whether two strings hold the same characters.
pub fn str_eq(a: &str, b: &str) -> (r: bool)
    ensures
        r == (a@ == b@),
{
    let r = bytes_eq(a.as_bytes(), b.as_bytes());
    proof {
        vstd::utf8::encode_utf8_decode_utf8(a@);
        vstd::utf8::encode_utf8_decode_utf8(b@);
    }
    r
}

/// A number that is written in decimal reads back as itself. It is written in digits only, and
/// without zeros in front.
pub proof fn law_decimal_reads_back(n: nat, max: nat)
    ensures
        decimal(n).len() > 0,
        forall|i: int| 0 <= i < decimal(n).len() ==> '0' <= #[trigger] decimal(n)[i] <= '9',
        n > 0 ==> decimal(n)[0] != '0',
        n <= max ==> decimal_value(decimal(n), max) == Some(n),
        n > max ==> decimal_value(decimal(n), max) is None,
    decreases n,
{
    lemma_decimal_digits(n);
    assert(decimal(n)[0] != '+');
    assert(all_digits(decimal(n)));
}

proof fn lemma_decimal_digits(n: nat)
    ensures
        decimal(n).len() > 0,
        forall|i: int| 0 <= i < decimal(n).len() ==> is_digit(#[trigger] decimal(n)[i]),
        n > 0 ==> decimal(n)[0] != '0',
        digits_value(decimal(n)) == n,
    decreases n,
{
    if n >= 10 {
        lemma_decimal_digits(n / 10);
        assert(decimal(n).drop_last() =~= decimal(n / 10));
    } else {
        assert(decimal(n).drop_last() =~= Seq::<char>::empty());
        assert(digits_value(decimal(n).drop_last()) == 0);
    }
}

/// A further digit makes a number ten times as large and adds its own value; a plus sign in front
/// makes no difference; anything else is no number.
pub proof fn law_decimal_grows_by_digits(s: Seq<char>, d: char, max: nat)
    ensures
        s.len() > 0 && s[0] != '+' && '0' <= d <= '9' ==> (decimal_value(s.push(d), max) matches Some(
            n,
        ) ==> decimal_value(s, max) matches Some(m) && n == m * 10 + (d as nat - '0' as nat)),
        s.len() > 0 && s[0] != '+' && !('0' <= d <= '9') ==> decimal_value(s.push(d), max) is None,
        s.len() > 0 && s[0] != '+' ==> decimal_value(seq!['+'] + s, max) == decimal_value(s, max),
        s.len() == 0 ==> decimal_value(s, max) is None,
        decimal_value(s, max) matches Some(n) ==> n <= max,
        '0' <= d <= '9' && d as nat - '0' as nat <= max ==> decimal_value(seq![d], max) == Some(
            (d as nat - '0' as nat) as nat,
        ),
{
    let t = s.push(d);
    assert(t.drop_last() =~= s);
    if s.len() > 0 && s[0] != '+' {
        if all_digits(t) {
            assert forall|i: int| 0 <= i < s.len() implies is_digit(#[trigger] s[i]) by {
                assert(t[i] == s[i]);
            }
        }
        if !('0' <= d <= '9') {
            assert(!is_digit(t[t.len() - 1]));
        }
        let p = seq!['+'] + s;
        assert(p[0] == '+');
        assert(p.skip(1) =~= s);
    }
    let one = seq![d];
    assert(one.drop_last() =~= Seq::<char>::empty());
    assert(digits_value(one.drop_last()) == 0);
}

/// Hexadecimal digits are the ten digits and the first six letters in lower case; the last digit
/// counts ones and those before it sixteens.
pub proof fn law_hex_digits(n: nat, width: nat)
    ensures
        hex_digits(n, width).len() == width,
        width > 0 ==> hex_digits(n, width).drop_last() == hex_digits(n / 16, (width - 1) as nat),
        width > 0 && n % 16 < 10 ==> hex_digits(n, width).last() as nat == '0' as nat + n % 16,
        width > 0 && n % 16 >= 10 ==> hex_digits(n, width).last() as nat == 'a' as nat + (n % 16
            - 10),
{
    lemma_hex_len(n, width);
    if width > 0 {
        assert(hex_digits(n, width).drop_last() =~= hex_digits(n / 16, (width - 1) as nat));
    }
}

/// Padding keeps the text, at the left or at the right, adds nothing but spaces, and fills up to
/// the width but not beyond it.
pub proof fn law_padding_keeps_the_text(s: Seq<char>, width: int, k: int)
    ensures
        padded_right(s, width).len() == (if s.len() < width {
            width
        } else {
            s.len() as int
        }),
        padded_right(s, width).take(s.len() as int) == s,
        s.len() <= k < padded_right(s, width).len() ==> padded_right(s, width)[k] == ' ',
        padded_left(s, width).len() == (if s.len() < width {
            width
        } else {
            s.len() as int
        }),
        padded_left(s, width).skip(padded_left(s, width).len() - s.len()) == s,
        0 <= k < padded_left(s, width).len() - s.len() ==> padded_left(s, width)[k] == ' ',
{
    assert(padded_right(s, width).take(s.len() as int) =~= s);
    assert(padded_left(s, width).skip(padded_left(s, width).len() - s.len()) =~= s);
}

/// Taking quotes off leaves a text that neither begins nor ends with one, and takes nothing else
/// off.
pub proof fn law_only_quotes_come_off(s: Seq<char>)
    ensures
        without_quotes(s).len() > 0 ==> without_quotes(s)[0] != '"' && without_quotes(s).last()
            != '"',
        exists|i: int, j: int|
            0 <= i <= j <= s.len() && without_quotes(s) == #[trigger] s.subrange(i, j) && (forall|
                k: int,
            |
                0 <= k < i || j <= k < s.len() ==> #[trigger] s[k] == '"'),
{
    let front = without_leading_quotes(s);
    let i = lemma_leading_quotes(s);
    let n = lemma_trailing_quotes(front);
    let j = i + n;
    assert(s.subrange(i, j) =~= without_quotes(s));
    assert forall|k: int| 0 <= k < i || j <= k < s.len() implies #[trigger] s[k] == '"' by {
        if j <= k {
            assert(front[k - i] == s[k]);
        }
    }
}

proof fn lemma_leading_quotes(s: Seq<char>) -> (i: int)
    ensures
        0 <= i <= s.len(),
        without_leading_quotes(s) == s.skip(i),
        forall|k: int| 0 <= k < i ==> #[trigger] s[k] == '"',
        i < s.len() ==> s[i] != '"',
    decreases s.len(),
{
    if s.len() > 0 && s[0] == '"' {
        let rest = s.skip(1);
        let n = lemma_leading_quotes(rest);
        assert(rest.skip(n) =~= s.skip(n + 1));
        assert forall|k: int| 0 <= k < n + 1 implies #[trigger] s[k] == '"' by {
            if k > 0 {
                assert(rest[k - 1] == s[k]);
            }
        }
        if n + 1 < s.len() {
            assert(rest[n] == s[n + 1]);
        }
        n + 1
    } else {
        assert(s.skip(0) =~= s);
        0
    }
}

proof fn lemma_trailing_quotes(s: Seq<char>) -> (n: int)
    ensures
        0 <= n <= s.len(),
        without_trailing_quotes(s) == s.take(n),
        forall|k: int| n <= k < s.len() ==> #[trigger] s[k] == '"',
        n > 0 ==> s[n - 1] != '"',
    decreases s.len(),
{
    if s.len() > 0 && s.last() == '"' {
        let rest = s.drop_last();
        let n = lemma_trailing_quotes(rest);
        assert(rest.take(n) =~= s.take(n));
        assert forall|k: int| n <= k < s.len() implies #[trigger] s[k] == '"' by {
            if k < rest.len() {
                assert(rest[k] == s[k]);
            }
        }
        n
    } else {
        assert(s.take(s.len() as int) =~= s);
        s.len() as int
    }
}

/// Replacing a pair leaves a text without that pair as it is, and each replacement takes one
/// character away.
pub proof fn law_replacing_pairs(s: Seq<char>, a: char, b: char, c: char)
    ensures
        (forall|i: int| 0 <= i < s.len() - 1 ==> !(#[trigger] s[i] == a && s[i + 1] == b))
            ==> pair_replaced(s, a, b, c) == s,
        pair_replaced(s, a, b, c).len() <= s.len(),
        pair_replaced(seq![a, b] + s, a, b, c) == seq![c] + pair_replaced(s, a, b, c),
    decreases s.len(),
{
    let t = seq![a, b] + s;
    assert(t[0] == a && t[1] == b);
    assert(t.skip(2) =~= s);
    if s.len() > 0 {
        if s.len() >= 2 && s[0] == a && s[1] == b {
            law_replacing_pairs(s.skip(2), a, b, c);
        } else {
            let rest = s.skip(1);
            law_replacing_pairs(rest, a, b, c);
            if forall|i: int| 0 <= i < s.len() - 1 ==> !(#[trigger] s[i] == a && s[i + 1] == b) {
                assert forall|i: int| 0 <= i < rest.len() - 1 implies !(#[trigger] rest[i] == a
                    && rest[i + 1] == b) by {
                    assert(rest[i] == s[i + 1] && rest[i + 1] == s[i + 2]);
                }
                assert(seq![s[0]] + rest =~= s);
            }
        }
    }
}

} // verus!
