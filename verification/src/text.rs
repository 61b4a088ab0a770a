//! Decimal rendering of integers and the small text helpers the viewer needs.

use vstd::prelude::*;
use vstd::string::*;
use crate::tile_size::{all_digits, digits_value, find, is_digit, lemma_digits_read_back, lemma_find_from_at, matches_at};

verus! {

/// The character of a decimal digit `d` (0 to 9).
pub open spec fn digit_char(d: nat) -> char {
    (48 + d) as char
}

/// Decimal digits of a natural number, most significant first, no leading zeros.
pub open spec fn spec_digits(n: nat) -> Seq<char>
    decreases n,
{
    if n < 10 {
        seq![digit_char(n)]
    } else {
        spec_digits(n / 10).push(digit_char(n % 10))
    }
}

/// Decimal rendering of an integer: a `-` sign for negatives, then the digits.
pub open spec fn spec_decimal(n: int) -> Seq<char> {
    if n < 0 {
        seq!['-'] + spec_digits((-n) as nat)
    } else {
        spec_digits(n as nat)
    }
}

/// The characters of `s`, in order.
pub fn chars_of(s: &str) -> (v: Vec<char>)
    ensures
        v@ == s@,
{
    let n = s.unicode_len();
    let mut v: Vec<char> = Vec::new();
    let mut i: usize = 0;
    while i < n
        invariant
            n == s@.len(),
            i <= n,
            v@ == s@.subrange(0, i as int),
        decreases n - i,
    {
        v.push(s.get_char(i));
        i = i + 1;
    }
    assert(v@ =~= s@);
    v
}

/// The one-character text of the decimal digit `d`.
fn digit_text(d: u32) -> (text: &'static str)
    requires
        d < 10,
    ensures
        text@ == seq![digit_char(d as nat)],
{
    proof {
        reveal_strlit("0");
        reveal_strlit("1");
        reveal_strlit("2");
        reveal_strlit("3");
        reveal_strlit("4");
        reveal_strlit("5");
        reveal_strlit("6");
        reveal_strlit("7");
        reveal_strlit("8");
        reveal_strlit("9");
    }
    let text = if d == 0 {
        "0"
    } else if d == 1 {
        "1"
    } else if d == 2 {
        "2"
    } else if d == 3 {
        "3"
    } else if d == 4 {
        "4"
    } else if d == 5 {
        "5"
    } else if d == 6 {
        "6"
    } else if d == 7 {
        "7"
    } else if d == 8 {
        "8"
    } else {
        "9"
    };
    assert(text@ =~= seq![digit_char(d as nat)]);
    text
}

fn push_digits(out: &mut String, n: u32)
    ensures
        final(out)@ == old(out)@ + spec_digits(n as nat),
    decreases n,
{
    if n >= 10 {
        push_digits(out, n / 10);
    }
    out.append(digit_text(n % 10));
    assert(old(out)@ + spec_digits(n as nat) =~= final(out)@) by {
        if n >= 10 {
            assert(spec_digits(n as nat) == spec_digits((n / 10) as nat).push(digit_char((n % 10) as nat)));
        }
    }
}

/// Renders `n` in decimal, as `n.to_string()` does.
pub fn decimal_text(n: i32) -> (s: String)
    ensures
        s@ == spec_decimal(n as int),
{
    let mut text = String::new();
    if n < 0 {
        text.append("-");
        proof {
            reveal_strlit("-");
        }
        let wide: i64 = n as i64;
        let magnitude: u32 = (0i64 - wide) as u32;
        push_digits(&mut text, magnitude);
    } else {
        push_digits(&mut text, n as u32);
    }
    assert(text@ =~= spec_decimal(n as int));
    text
}

/// The notice shown when the index base is switched.
pub open spec fn index_base_message_text(one_based: bool) -> Seq<char> {
    "Switched to "@ + if one_based { "1-indexed (Lua)"@ } else { "0-indexed"@ }
}

/// The notice shown when a tile index is copied.
pub open spec fn copied_message_text(index: int) -> Seq<char> {
    "Copied to clipboard: "@ + spec_decimal(index)
}

/// The texture dimensions line of the info panel, `{width}x{height}px`.
pub open spec fn texture_size_text_spec(width: int, height: int) -> Seq<char> {
    spec_decimal(width) + "x"@ + spec_decimal(height) + "px"@
}

/// The tile count line of the info panel, `Tiles: {count}`.
pub open spec fn tile_count_text_spec(count: int) -> Seq<char> {
    "Tiles: "@ + spec_decimal(count)
}

/// The tile size line of the info panel, `Tile size: {size}px`.
pub open spec fn tile_size_text_spec(size: int) -> Seq<char> {
    "Tile size: "@ + spec_decimal(size) + "px"@
}

/// The notice shown when the index base is switched.
pub fn index_base_message(one_based: bool) -> (message: String)
    ensures
        message@ == index_base_message_text(one_based),
{
    let mut message = String::from_str("Switched to ");
    if one_based {
        message.append("1-indexed (Lua)");
    } else {
        message.append("0-indexed");
    }
    message
}

/// The notice shown when a tile index is copied.
pub fn copied_message(index: i32) -> (message: String)
    ensures
        message@ == copied_message_text(index as int),
{
    let digits = decimal_text(index);
    let mut message = String::from_str("Copied to clipboard: ");
    message.append(digits.as_str());
    message
}

/// The texture dimensions line of the info panel.
pub fn texture_size_text(width: i32, height: i32) -> (text: String)
    ensures
        text@ == texture_size_text_spec(width as int, height as int),
{
    let mut text = decimal_text(width);
    text.append("x");
    let h = decimal_text(height);
    text.append(h.as_str());
    text.append("px");
    text
}

/// The tile count line of the info panel.
pub fn tile_count_text(count: i32) -> (text: String)
    ensures
        text@ == tile_count_text_spec(count as int),
{
    let digits = decimal_text(count);
    let mut text = String::from_str("Tiles: ");
    text.append(digits.as_str());
    text
}

/// The tile size line of the info panel.
pub fn tile_size_text(size: i32) -> (text: String)
    ensures
        text@ == tile_size_text_spec(size as int),
{
    let digits = decimal_text(size);
    let mut text = String::from_str("Tile size: ");
    text.append(digits.as_str());
    text.append("px");
    text
}

/// A decimal rendering reads back as the number it renders: a non-negative
/// number is a non-empty run of digits with that value; a negative one is a
/// `-` followed by the digits of its magnitude.
pub proof fn lemma_decimal_reads_back(n: int)
    ensures
        n >= 0 ==> {
            &&& spec_decimal(n).len() > 0
            &&& all_digits(spec_decimal(n))
            &&& digits_value(spec_decimal(n)) == n
        },
        n == 0 ==> spec_decimal(n) == seq!['0'],
        n > 0 ==> spec_decimal(n)[0] != '0',
        n < 0 ==> {
            let d = spec_decimal(n);
            &&& d.len() > 1
            &&& d[0] == '-'
            &&& all_digits(d.subrange(1, d.len() as int))
            &&& digits_value(d.subrange(1, d.len() as int)) == -n
        },
{
    if n >= 0 {
        lemma_digits_read_back(n as nat);
        if n > 0 {
            lemma_digits_lead_nonzero(n as nat);
        } else {
            assert(spec_decimal(n) =~= seq!['0']);
        }
    } else {
        lemma_digits_read_back((-n) as nat);
        let d = spec_decimal(n);
        assert(d.subrange(1, d.len() as int) =~= spec_digits((-n) as nat));
    }
}

/// The texture line reads back as the width, then `x`, then the height, then
/// `px`: the digits before the first `x` give the width and the digits between
/// it and the closing `px` give the height.
pub proof fn lemma_texture_size_text_reads_back(width: int, height: int)
    requires
        width >= 0,
        height >= 0,
    ensures
        ({
            let t = texture_size_text_spec(width, height);
            match find(t, seq!['x']) {
                Some(k) => {
                    &&& all_digits(t.subrange(0, k))
                    &&& digits_value(t.subrange(0, k)) == width
                    &&& k + 3 <= t.len()
                    &&& all_digits(t.subrange(k + 1, t.len() - 2))
                    &&& digits_value(t.subrange(k + 1, t.len() - 2)) == height
                    &&& t.subrange(t.len() - 2, t.len() as int) == seq!['p', 'x']
                },
                None => false,
            }
        }),
{
    reveal_strlit("x");
    reveal_strlit("px");
    lemma_decimal_reads_back(width);
    lemma_decimal_reads_back(height);
    let a = spec_decimal(width);
    let b = spec_decimal(height);
    let t = texture_size_text_spec(width, height);
    assert("x"@ =~= seq!['x']);
    assert("px"@ =~= seq!['p', 'x']);
    assert(t =~= a + seq!['x'] + b + seq!['p', 'x']);
    assert forall|j: int| 0 <= j < a.len() implies !matches_at(t, seq!['x'], j) by {
        assert(t[j] == a[j]);
        assert(is_digit(a[j]));
        if matches_at(t, seq!['x'], j) {
            assert(t.subrange(j, j + 1)[0] == 'x');
        }
    }
    assert(t.subrange(a.len() as int, a.len() as int + 1) =~= seq!['x']);
    lemma_find_from_at(t, seq!['x'], 0, a.len() as int);
    assert(t.subrange(0, a.len() as int) =~= a);
    assert(t.subrange(a.len() as int + 1, t.len() - 2) =~= b);
    assert(t.subrange(t.len() - 2, t.len() as int) =~= seq!['p', 'x']);
}

/// The tile count line reads back as the count after its `Tiles: ` label.
pub proof fn lemma_tile_count_text_reads_back(count: int)
    requires
        count >= 0,
    ensures
        ({
            let t = tile_count_text_spec(count);
            &&& t.len() > 7
            &&& all_digits(t.subrange(7, t.len() as int))
            &&& digits_value(t.subrange(7, t.len() as int)) == count
        }),
{
    reveal_strlit("Tiles: ");
    lemma_decimal_reads_back(count);
    let t = tile_count_text_spec(count);
    assert(t.subrange(7, t.len() as int) =~= spec_decimal(count));
}

/// The tile size line reads back as the size between its `Tile size: ` label
/// and the closing `px`.
pub proof fn lemma_tile_size_text_reads_back(size: int)
    requires
        size >= 0,
    ensures
        ({
            let t = tile_size_text_spec(size);
            &&& t.len() > 13
            &&& all_digits(t.subrange(11, t.len() - 2))
            &&& digits_value(t.subrange(11, t.len() - 2)) == size
            &&& t.subrange(t.len() - 2, t.len() as int) == seq!['p', 'x']
        }),
{
    reveal_strlit("Tile size: ");
    reveal_strlit("px");
    lemma_decimal_reads_back(size);
    let t = tile_size_text_spec(size);
    assert(t.subrange(11, t.len() - 2) =~= spec_decimal(size));
    assert(t.subrange(t.len() - 2, t.len() as int) =~= seq!['p', 'x']);
}

/// The copy notice reads back as the copied index after its
/// `Copied to clipboard: ` label, and that index is the copied text.
pub proof fn lemma_copied_message_reads_back(index: int)
    requires
        index >= 0,
    ensures
        ({
            let t = copied_message_text(index);
            &&& t.len() > 21
            &&& t.subrange(21, t.len() as int) == spec_decimal(index)
            &&& all_digits(t.subrange(21, t.len() as int))
            &&& digits_value(t.subrange(21, t.len() as int)) == index
        }),
{
    reveal_strlit("Copied to clipboard: ");
    lemma_decimal_reads_back(index);
    let t = copied_message_text(index);
    assert(t.subrange(21, t.len() as int) =~= spec_decimal(index));
}

/// The index-base notice names the new base: the character after
/// `Switched to ` is `1` for 1-based indexes and `0` for 0-based ones.
pub proof fn lemma_index_base_message_names_base(one_based: bool)
    ensures
        index_base_message_text(one_based).len() > 12,
        index_base_message_text(one_based)[12] == if one_based { '1' } else { '0' },
{
    reveal_strlit("Switched to ");
    reveal_strlit("1-indexed (Lua)");
    reveal_strlit("0-indexed");
}

proof fn lemma_digits_lead_nonzero(n: nat)
    requires
        n > 0,
    ensures
        spec_digits(n)[0] != '0',
    decreases n,
{
    if n >= 10 {
        lemma_digits_lead_nonzero(n / 10);
        assert(spec_digits(n)[0] == spec_digits(n / 10)[0]);
    } else {
        assert(digit_char(n) as int == 48 + n);
    }
}

} // verus!
