//! Reading the tile size out of an image file name in the image-table naming
//! scheme `name-table-W-H.png`, where `W` is the tile width and `H` the tile
//! height.  Tiles are taken to be square, so only `W` is used; a name that
//! does not follow the scheme gets the default size of 16.  The scheme
//! describes the file name, so only the text after the last `/` of a path
//! is read: a directory that holds `-table-` does not disturb it.

use vstd::prelude::*;
use crate::text::{chars_of, spec_digits, spec_decimal, digit_char};

verus! {

/// The size used when the file name carries none.
pub const DEFAULT_TILE_SIZE: i32 = 16;

/// The file extension that is stripped (repeatedly) before the name is read.
pub open spec fn png_extension() -> Seq<char> {
    seq!['.', 'p', 'n', 'g']
}

/// The marker that separates the name from the dimensions.
pub open spec fn table_marker() -> Seq<char> {
    seq!['-', 't', 'a', 'b', 'l', 'e', '-']
}

/// The separator of path components.
pub open spec fn slash() -> Seq<char> {
    seq!['/']
}

/// The separator between the two dimensions.
pub open spec fn dash() -> Seq<char> {
    seq!['-']
}

pub open spec fn ends_with(s: Seq<char>, suffix: Seq<char>) -> bool {
    suffix.len() <= s.len() && s.subrange(s.len() - suffix.len(), s.len() as int) == suffix
}

/// `s` with every trailing `.png` removed (as `trim_end_matches(".png")`).
pub open spec fn trim_png(s: Seq<char>) -> Seq<char>
    decreases s.len(),
{
    if ends_with(s, png_extension()) {
        trim_png(s.subrange(0, s.len() - 4))
    } else {
        s
    }
}

/// `pat` occurs in `s` starting at position `i`.
pub open spec fn matches_at(s: Seq<char>, pat: Seq<char>, i: int) -> bool {
    0 <= i && i + pat.len() <= s.len() && s.subrange(i, i + pat.len()) == pat
}

/// The first position at or after `i` where `pat` occurs in `s`, if any.
pub open spec fn find_from(s: Seq<char>, pat: Seq<char>, i: nat) -> Option<int>
    decreases s.len() - i,
{
    if i + pat.len() > s.len() {
        None
    } else if matches_at(s, pat, i as int) {
        Some(i as int)
    } else if pat.len() == 0 {
        None
    } else {
        find_from(s, pat, i + 1)
    }
}

/// The first position where `pat` occurs in `s` (as `str::find`).
pub open spec fn find(s: Seq<char>, pat: Seq<char>) -> Option<int> {
    find_from(s, pat, 0)
}

/// The last position before `end` where `pat` occurs in `s`, if any.
pub open spec fn rfind_before(s: Seq<char>, pat: Seq<char>, end: nat) -> Option<int>
    decreases end,
{
    if end == 0 {
        None
    } else if matches_at(s, pat, end - 1) {
        Some(end - 1)
    } else {
        rfind_before(s, pat, (end - 1) as nat)
    }
}

/// The last position where `pat` occurs in `s` (as `str::rfind`).
pub open spec fn rfind(s: Seq<char>, pat: Seq<char>) -> Option<int> {
    rfind_before(s, pat, s.len() + 1)
}

pub open spec fn is_digit(c: char) -> bool {
    '0' <= c && c <= '9'
}

pub open spec fn all_digits(s: Seq<char>) -> bool {
    forall|i: int| 0 <= i < s.len() ==> is_digit(#[trigger] s[i])
}

/// The value of a string of decimal digits.
pub open spec fn digits_value(s: Seq<char>) -> int
    decreases s.len(),
{
    if s.len() == 0 {
        0
    } else {
        digits_value(s.drop_last()) * 10 + (s.last() as int - '0' as int)
    }
}

/// What `s.parse::<i32>()` accepts and yields: an optional `+` or `-`, then
/// at least one decimal digit and nothing else, with a value in `i32` range.
pub open spec fn spec_parse_i32(s: Seq<char>) -> Option<int> {
    let signed = s.len() > 0 && (s[0] == '-' || s[0] == '+');
    let body = if signed { s.subrange(1, s.len() as int) } else { s };
    let value = if s.len() > 0 && s[0] == '-' { -digits_value(body) } else { digits_value(body) };
    if body.len() > 0 && all_digits(body) && i32::MIN <= value <= i32::MAX {
        Some(value)
    } else {
        None
    }
}

/// The last component of a path: the text after its last `/`, or the whole
/// path when it holds none.
pub open spec fn file_component(path: Seq<char>) -> Seq<char> {
    match rfind(path, slash()) {
        Some(k) => path.subrange(k + 1, path.len() as int),
        None => path,
    }
}

/// The tile size that a path carries: the stem is its file name (the text
/// after the last `/`) without trailing `.png` extensions; after the first
/// `-table-` in the stem comes `W-H`, and the text before the first `-`
/// there is read as an `i32`.  When any of these steps fails, the size is 16.
pub open spec fn spec_tile_size(name: Seq<char>) -> int {
    let stem = trim_png(file_component(name));
    match find(stem, table_marker()) {
        Some(p) => {
            let dims = stem.subrange(p + 7, stem.len() as int);
            match find(dims, dash()) {
                Some(k) => match spec_parse_i32(dims.subrange(0, k)) {
                    Some(v) => v,
                    None => 16,
                },
                None => 16,
            }
        },
        None => 16,
    }
}

fn sub_chars(v: &Vec<char>, start: usize, end: usize) -> (r: Vec<char>)
    requires
        start <= end <= v.len(),
    ensures
        r@ == v@.subrange(start as int, end as int),
{
    let mut r: Vec<char> = Vec::new();
    let mut i: usize = start;
    while i < end
        invariant
            start <= i <= end <= v.len(),
            r@ == v@.subrange(start as int, i as int),
        decreases end - i,
    {
        r.push(v[i]);
        i = i + 1;
    }
    r
}

fn png_extension_chars() -> (r: Vec<char>)
    ensures
        r@ == png_extension(),
{
    let mut r: Vec<char> = Vec::new();
    r.push('.');
    r.push('p');
    r.push('n');
    r.push('g');
    assert(r@ =~= png_extension());
    r
}

fn table_marker_chars() -> (r: Vec<char>)
    ensures
        r@ == table_marker(),
{
    let mut r: Vec<char> = Vec::new();
    r.push('-');
    r.push('t');
    r.push('a');
    r.push('b');
    r.push('l');
    r.push('e');
    r.push('-');
    assert(r@ =~= table_marker());
    r
}

/// Whether `pat` occurs in `s` at position `i`.
fn occurs_at(s: &Vec<char>, pat: &Vec<char>, i: usize) -> (b: bool)
    requires
        i + pat.len() <= s.len(),
    ensures
        b == matches_at(s@, pat@, i as int),
{
    let mut j: usize = 0;
    while j < pat.len()
        invariant
            i + pat.len() <= s.len(),
            j <= pat.len(),
            s@.subrange(i as int, i + j) == pat@.subrange(0, j as int),
        decreases pat.len() - j,
    {
        if s[i + j] != pat[j] {
            assert(s@.subrange(i as int, i + pat.len())[j as int] != pat@[j as int]);
            return false;
        }
        assert(s@.subrange(i as int, i + j + 1) =~= s@.subrange(i as int, i + j).push(s@[i + j]));
        assert(pat@.subrange(0, j + 1) =~= pat@.subrange(0, j as int).push(pat@[j as int]));
        j = j + 1;
    }
    assert(pat@.subrange(0, pat.len() as int) =~= pat@);
    true
}

/// The first position where `pat` occurs in `s` (as `str::find`).
fn find_chars(s: &Vec<char>, pat: &Vec<char>) -> (r: Option<usize>)
    requires
        pat.len() > 0,
    ensures
        match r {
            Some(i) => find(s@, pat@) == Some(i as int),
            None => find(s@, pat@) is None,
        },
{
    if pat.len() > s.len() {
        return None;
    }
    let last = s.len() - pat.len();
    let mut i: usize = 0;
    while i <= last
        invariant
            last + pat.len() == s.len(),
            pat.len() > 0,
            find(s@, pat@) == find_from(s@, pat@, i as nat),
        decreases last + 1 - i,
    {
        if occurs_at(s, pat, i) {
            return Some(i);
        }
        i = i + 1;
    }
    None
}

/// The last position where `pat` occurs in `s` (as `str::rfind`).
fn rfind_chars(s: &Vec<char>, pat: &Vec<char>) -> (r: Option<usize>)
    requires
        pat.len() > 0,
    ensures
        match r {
            Some(i) => rfind(s@, pat@) == Some(i as int),
            None => rfind(s@, pat@) is None,
        },
{
    if pat.len() > s.len() {
        proof {
            lemma_rfind_before_is_last(s@, pat@, s@.len() + 1);
            assert(rfind(s@, pat@) is None) by {
                if rfind(s@, pat@) is Some {
                    assert(matches_at(s@, pat@, rfind(s@, pat@).unwrap()));
                }
            }
        }
        return None;
    }
    let mut end: usize = s.len() - pat.len() + 1;
    proof {
        lemma_rfind_skip_tail(s@, pat@, s@.len() + 1, end as nat);
    }
    while end > 0
        invariant
            end + pat.len() <= s.len() + 1,
            pat.len() > 0,
            rfind(s@, pat@) == rfind_before(s@, pat@, end as nat),
        decreases end,
    {
        if occurs_at(s, pat, end - 1) {
            return Some(end - 1);
        }
        end = end - 1;
    }
    None
}

/// Positions from which `pat` would run past the end of `s` are skipped.
proof fn lemma_rfind_skip_tail(s: Seq<char>, pat: Seq<char>, end: nat, stop: nat)
    requires
        stop <= end,
        stop + pat.len() >= s.len() + 1,
    ensures
        rfind_before(s, pat, end) == rfind_before(s, pat, stop),
    decreases end - stop,
{
    if end > stop {
        assert(!matches_at(s, pat, end - 1));
        lemma_rfind_skip_tail(s, pat, (end - 1) as nat, stop);
    }
}

/// Parses `s`, as `s.parse::<i32>()` does, to `Some(value)` or `None`.
fn parse_i32(s: &Vec<char>) -> (r: Option<i32>)
    ensures
        match spec_parse_i32(s@) {
            Some(v) => r == Some(v as i32),
            None => r is None,
        },
{
    let n = s.len();
    if n == 0 {
        return None;
    }
    let negative = s[0] == '-';
    let start: usize = if s[0] == '-' || s[0] == '+' { 1 } else { 0 };
    if start == n {
        return None;
    }
    let ghost body = s@.subrange(start as int, n as int);
    assert(start == 1 <==> (s@.len() > 0 && (s@[0] == '-' || s@[0] == '+')));
    assert(body =~= (if start == 1 { s@.subrange(1, s@.len() as int) } else { s@ }));
    assert(negative <==> (s@.len() > 0 && s@[0] == '-'));
    let mut value: i64 = 0;
    let mut i: usize = start;
    while i < n
        invariant
            start <= i <= n == s.len(),
            body == s@.subrange(start as int, n as int),
            start <= 1,
            start < n,
            start == 1 <==> (s@[0] == '-' || s@[0] == '+'),
            negative <==> s@[0] == '-',
            all_digits(body.subrange(0, i - start)),
            value == digits_value(body.subrange(0, i - start)),
            0 <= value <= 2147483648,
        decreases n - i,
    {
        let c = s[i];
        if !('0' <= c && c <= '9') {
            assert(body[i - start] == c);
            assert(!all_digits(body));
            assert(spec_parse_i32(s@) is None);
            return None;
        }
        let d: i64 = if c == '0' { 0 } else if c == '1' { 1 } else if c == '2' { 2 } else if c == '3' { 3 }
            else if c == '4' { 4 } else if c == '5' { 5 } else if c == '6' { 6 } else if c == '7' { 7 }
            else if c == '8' { 8 } else { 9 };
        assert(d == c as int - '0' as int);
        let ghost prefix = body.subrange(0, i - start);
        let ghost next = body.subrange(0, i + 1 - start);
        assert(next.drop_last() =~= prefix);
        assert(next.last() == c);
        value = value * 10 + d;
        assert(value == digits_value(next));
        assert(all_digits(next)) by {
            assert forall|j: int| 0 <= j < next.len() implies is_digit(#[trigger] next[j]) by {
                if j < prefix.len() {
                    assert(next[j] == prefix[j]);
                }
            }
        }
        if value > 2147483648 {
            proof {
                lemma_digits_value_prefix(body, i + 1 - start);
                if all_digits(body) {
                    assert(digits_value(next) <= digits_value(body));
                    assert(digits_value(body) > 2147483648);
                    assert(body =~= (if start == 1 { s@.subrange(1, s@.len() as int) } else { s@ }));
                }
            }
            assert(spec_parse_i32(s@) is None);
            return None;
        }
        i = i + 1;
    }
    assert(body.subrange(0, n - start) =~= body);
    if negative {
        Some((0i64 - value) as i32)
    } else if value > 2147483647 {
        None
    } else {
        Some(value as i32)
    }
}

proof fn lemma_digits_value_nonneg(s: Seq<char>)
    requires
        all_digits(s),
    ensures
        digits_value(s) >= 0,
    decreases s.len(),
{
    if s.len() > 0 {
        assert(all_digits(s.drop_last())) by {
            assert forall|j: int| 0 <= j < s.drop_last().len() implies is_digit(#[trigger] s.drop_last()[j]) by {
                assert(s.drop_last()[j] == s[j]);
            }
        }
        lemma_digits_value_nonneg(s.drop_last());
        assert(is_digit(s[s.len() - 1]));
    }
}

/// A prefix of a digit string has no greater value than the whole string.
proof fn lemma_digits_value_prefix(s: Seq<char>, k: int)
    requires
        0 <= k <= s.len(),
    ensures
        all_digits(s) ==> digits_value(s.subrange(0, k)) <= digits_value(s),
    decreases s.len(),
{
    if all_digits(s) && k < s.len() {
        let t = s.drop_last();
        assert(all_digits(t)) by {
            assert forall|j: int| 0 <= j < t.len() implies is_digit(#[trigger] t[j]) by {
                assert(t[j] == s[j]);
            }
        }
        lemma_digits_value_prefix(t, k);
        assert(t.subrange(0, k) =~= s.subrange(0, k));
        lemma_digits_value_nonneg(t);
        assert(is_digit(s[s.len() - 1]));
    } else if k == s.len() {
        assert(s.subrange(0, k) =~= s);
    }
}


/// A position reported by `find_from` is an occurrence at or after the start,
/// and no occurrence lies between the start and it.
pub proof fn lemma_find_from_is_first(s: Seq<char>, pat: Seq<char>, i: nat)
    ensures
        match find_from(s, pat, i) {
            Some(k) => i <= k && matches_at(s, pat, k) && forall|j: int|
                i <= j < k ==> !matches_at(s, pat, j),
            None => forall|j: int| i <= j ==> !matches_at(s, pat, j),
        },
    decreases s.len() - i,
{
    if i + pat.len() > s.len() {
    } else if matches_at(s, pat, i as int) {
    } else if pat.len() == 0 {
        assert(s.subrange(i as int, i as int) =~= pat);
    } else {
        lemma_find_from_is_first(s, pat, i + 1);
    }
}

/// Reads the tile size out of a file name in the image-table format
/// `name-table-W-H.png`; see `spec_tile_size`.  Defaults to 16.
pub fn determine_tile_size(file_name: &str) -> (size: i32)
    ensures
        size == spec_tile_size(file_name@),
{
    let path = chars_of(file_name);
    let mut slash_chars: Vec<char> = Vec::new();
    slash_chars.push('/');
    assert(slash_chars@ =~= slash());
    let start: usize = match rfind_chars(&path, &slash_chars) {
        Some(k) => {
            proof {
                lemma_rfind_before_is_last(path@, slash(), path@.len() + 1);
                assert(matches_at(path@, slash(), k as int));
                assert(slash().len() == 1);
                assert(k < path.len());
            }
            k + 1
        },
        None => 0,
    };
    let name = sub_chars(&path, start, path.len());
    assert(name@ =~= file_component(path@));
    let png = png_extension_chars();
    let mut end: usize = name.len();
    assert(name@.subrange(0, end as int) =~= name@);
    while end >= 4 && occurs_at(&name, &png, end - 4)
        invariant
            end <= name.len(),
            png@ == png_extension(),
            trim_png(name@) == trim_png(name@.subrange(0, end as int)),
        decreases end,
    {
        let ghost cur = name@.subrange(0, end as int);
        assert(cur.subrange(cur.len() - 4, cur.len() as int) =~= name@.subrange(end - 4, end as int));
        assert(cur.subrange(0, cur.len() - 4) =~= name@.subrange(0, end - 4));
        end = end - 4;
    }
    proof {
        let cur = name@.subrange(0, end as int);
        if end >= 4 {
            assert(cur.subrange(cur.len() - 4, cur.len() as int) =~= name@.subrange(end - 4, end as int));
        }
    }
    let stem = sub_chars(&name, 0, end);
    assert(stem@ == trim_png(name@));
    let marker = table_marker_chars();
    proof {
        lemma_find_from_is_first(stem@, marker@, 0);
    }
    match find_chars(&stem, &marker) {
        Some(p) => {
            let dims = sub_chars(&stem, p + 7, stem.len());
            let mut dash_chars: Vec<char> = Vec::new();
            dash_chars.push('-');
            assert(dash_chars@ =~= dash());
            proof {
                lemma_find_from_is_first(dims@, dash(), 0);
            }
            match find_chars(&dims, &dash_chars) {
                Some(k) => {
                    let width = sub_chars(&dims, 0, k);
                    match parse_i32(&width) {
                        Some(v) => v,
                        None => DEFAULT_TILE_SIZE,
                    }
                },
                None => DEFAULT_TILE_SIZE,
            }
        },
        None => DEFAULT_TILE_SIZE,
    }
}

/// Whatever the file name, the tile size read from it is not negative: the
/// width is read from text before the first `-`, so it carries no minus sign.
pub proof fn lemma_tile_size_nonnegative(name: Seq<char>)
    ensures
        0 <= spec_tile_size(name) <= i32::MAX,
{
    let stem = trim_png(file_component(name));
    match find(stem, table_marker()) {
        Some(p) => {
            lemma_find_from_is_first(stem, table_marker(), 0);
            let dims = stem.subrange(p + 7, stem.len() as int);
            lemma_find_from_is_first(dims, dash(), 0);
            match find(dims, dash()) {
                Some(k) => {
                    let w = dims.subrange(0, k);
                    if w.len() > 0 {
                        assert(!matches_at(dims, dash(), 0));
                        assert(dims.subrange(0, 1) =~= seq![w[0]]);
                        assert(w[0] != '-');
                    }
                    match spec_parse_i32(w) {
                        Some(v) => {
                            let signed = w[0] == '-' || w[0] == '+';
                            let body = if signed { w.subrange(1, w.len() as int) } else { w };
                            lemma_digits_value_nonneg(body);
                        },
                        None => {},
                    }
                },
                None => {},
            }
        },
        None => {},
    }
}

/// A position reported by `rfind_before` is an occurrence before the end,
/// and no occurrence lies between it and the end.
pub proof fn lemma_rfind_before_is_last(s: Seq<char>, pat: Seq<char>, end: nat)
    ensures
        match rfind_before(s, pat, end) {
            Some(k) => 0 <= k < end && matches_at(s, pat, k) && forall|j: int|
                k < j < end ==> !matches_at(s, pat, j),
            None => forall|j: int| j < end ==> !matches_at(s, pat, j),
        },
    decreases end,
{
    if end > 0 && !matches_at(s, pat, end - 1) {
        lemma_rfind_before_is_last(s, pat, (end - 1) as nat);
    }
}

/// An occurrence with none after it (up to the end) is the one
/// `rfind_before` reports.
pub proof fn lemma_rfind_before_at(s: Seq<char>, pat: Seq<char>, end: nat, k: int)
    requires
        k < end,
        matches_at(s, pat, k),
        forall|j: int| k < j < end ==> !matches_at(s, pat, j),
    ensures
        rfind_before(s, pat, end) == Some(k),
    decreases end,
{
    if k < end - 1 {
        assert(!matches_at(s, pat, end - 1));
        lemma_rfind_before_at(s, pat, (end - 1) as nat, k);
    }
}

/// An occurrence with none before it (from the start position on) is the
/// one `find_from` reports.
pub proof fn lemma_find_from_at(s: Seq<char>, pat: Seq<char>, i: nat, k: int)
    requires
        i <= k,
        matches_at(s, pat, k),
        forall|j: int| i <= j < k ==> !matches_at(s, pat, j),
    ensures
        find_from(s, pat, i) == Some(k),
    decreases k - i,
{
    if i < k {
        assert(!matches_at(s, pat, i as int));
        if pat.len() == 0 {
            assert(s.subrange(i as int, i as int) =~= pat);
        }
        lemma_find_from_at(s, pat, i + 1, k);
    }
}

/// Stripping `.png` from the end never reaches past a `-`: it only works on
/// the text after it.
proof fn lemma_trim_png_after_dash(x: Seq<char>, y: Seq<char>)
    requires
        x.len() > 0,
        x.last() == '-',
    ensures
        trim_png(x + y) == x + trim_png(y),
    decreases y.len(),
{
    let s = x + y;
    if ends_with(y, png_extension()) {
        assert(s.subrange(s.len() - 4, s.len() as int) =~= y.subrange(y.len() - 4, y.len() as int));
        assert(s.subrange(0, s.len() - 4) =~= x + y.subrange(0, y.len() - 4));
        lemma_trim_png_after_dash(x, y.subrange(0, y.len() - 4));
    } else {
        if y.len() >= 4 {
            assert(s.subrange(s.len() - 4, s.len() as int) =~= y.subrange(y.len() - 4, y.len() as int));
        } else if s.len() >= 4 {
            let tail = s.subrange(s.len() - 4, s.len() as int);
            assert(tail[3 - y.len()] == x.last());
            assert(tail != png_extension()) by {
                if tail == png_extension() {
                    assert(png_extension()[3 - y.len()] != '-');
                }
            }
        }
    }
}

/// The decimal digits of a number are digits, one at least, and read back as
/// that number.
pub proof fn lemma_digits_read_back(n: nat)
    ensures
        spec_digits(n).len() > 0,
        all_digits(spec_digits(n)),
        digits_value(spec_digits(n)) == n,
    decreases n,
{
    let d = spec_digits(n);
    assert(digit_char((n % 10) as nat) as int == 48 + n % 10);
    if n >= 10 {
        lemma_digits_read_back(n / 10);
        assert(d.drop_last() =~= spec_digits(n / 10));
        assert(d.last() == digit_char((n % 10) as nat));
        assert(digits_value(d) == digits_value(d.drop_last()) * 10 + (d.last() as int - '0' as int));
        assert forall|j: int| 0 <= j < d.len() implies is_digit(#[trigger] d[j]) by {
            if j < d.len() - 1 {
                assert(d[j] == spec_digits(n / 10)[j]);
            }
        }
    } else {
        assert(d.drop_last() =~= Seq::<char>::empty());
        assert(digits_value(d.drop_last()) == 0);
        assert(d.last() == digit_char(n));
    }
}

/// Trailing `.png` extensions do not change the tile size read from a name.
pub proof fn lemma_tile_size_ignores_png_extension(name: Seq<char>)
    ensures
        spec_tile_size(name + png_extension()) == spec_tile_size(name),
{
    assert forall|i: int| 0 <= i < png_extension().len() implies png_extension()[i] != '/' by {}
    lemma_file_component_append(name, png_extension());
    let s = file_component(name) + png_extension();
    assert(s.subrange(s.len() - 4, s.len() as int) =~= png_extension());
    assert(s.subrange(0, s.len() - 4) =~= file_component(name));
}

/// A path whose file name is in the image-table format,
/// `prefix-table-W-rest`, carries tile size `W`, whatever follows the `-`
/// after `W` (such as `H.png`), provided the file name's part before
/// `-table-` holds no earlier `-table-` and `rest` is no directory (holds no
/// `/`).  The prefix may hold any directories, with `-table-` in them or not.
pub proof fn lemma_tile_size_of_table_name(prefix: Seq<char>, width: int, rest: Seq<char>)
    requires
        0 <= width <= i32::MAX,
        forall|j: int|
            0 <= j < file_component(prefix).len() ==> !matches_at(
                file_component(prefix) + table_marker(),
                table_marker(),
                j,
            ),
        forall|i: int| 0 <= i < rest.len() ==> rest[i] != '/',
    ensures
        spec_tile_size(prefix + table_marker() + spec_decimal(width) + dash() + rest) == width,
{
    let w = spec_decimal(width);
    lemma_digits_read_back(width as nat);
    let tail = table_marker() + w + dash() + rest;
    assert forall|i: int| 0 <= i < tail.len() implies tail[i] != '/' by {
        if i >= 7 && i < 7 + w.len() {
            assert(tail[i] == w[i - 7]);
            assert(is_digit(w[i - 7]));
        } else if i >= 8 + w.len() {
            assert(tail[i] == rest[i - 8 - w.len()]);
        }
    }
    assert(prefix + table_marker() + w + dash() + rest =~= prefix + tail);
    lemma_file_component_append(prefix, tail);
    let base = file_component(prefix);
    let head = base + table_marker() + w + dash();
    let name = head + rest;
    assert(base + tail =~= name);
    lemma_trim_png_after_dash(head, rest);
    let stem = trim_png(name);
    assert(stem == head + trim_png(rest));
    let marked = base + table_marker();
    let p = base.len() as int;
    assert forall|j: int| 0 <= j < p implies !matches_at(stem, table_marker(), j) by {
        assert(!matches_at(marked, table_marker(), j));
        assert(stem.subrange(j, j + 7) =~= marked.subrange(j, j + 7));
    }
    assert(stem.subrange(p, p + 7) =~= table_marker());
    lemma_find_from_at(stem, table_marker(), 0, p);
    let dims = stem.subrange(p + 7, stem.len() as int);
    assert(dims =~= w + dash() + trim_png(rest));
    assert forall|j: int| 0 <= j < w.len() implies !matches_at(dims, dash(), j) by {
        assert(dims[j] == w[j]);
        assert(is_digit(w[j]));
        if matches_at(dims, dash(), j) {
            assert(dims.subrange(j, j + 1)[0] == dash()[0]);
        }
    }
    assert(dims.subrange(w.len() as int, w.len() as int + 1) =~= dash());
    lemma_find_from_at(dims, dash(), 0, w.len() as int);
    assert(dims.subrange(0, w.len() as int) =~= w);
    assert(is_digit(w[0]));
}

/// A name in which `-table-` does not occur gets the default tile size.
pub proof fn lemma_tile_size_default(name: Seq<char>)
    requires
        forall|j: int| !matches_at(name, table_marker(), j),
    ensures
        spec_tile_size(name) == 16,
{
    let base = file_component(name);
    lemma_rfind_before_is_last(name, slash(), name.len() + 1);
    let start: int = match rfind(name, slash()) {
        Some(k) => k + 1,
        None => 0,
    };
    assert(base =~= name.subrange(start, name.len() as int));
    lemma_trim_png_is_prefix(base);
    let stem = trim_png(base);
    assert forall|j: int| !matches_at(stem, table_marker(), j) by {
        if matches_at(stem, table_marker(), j) {
            assert(stem.subrange(j, j + 7) =~= name.subrange(start + j, start + j + 7));
            assert(matches_at(name, table_marker(), start + j));
        }
    }
    lemma_find_from_is_first(stem, table_marker(), 0);
}

/// `/` occurs at `j` exactly when the character there is `/`.
proof fn lemma_matches_slash(s: Seq<char>, j: int)
    ensures
        matches_at(s, slash(), j) <==> (0 <= j < s.len() && s[j] == '/'),
{
    if 0 <= j < s.len() {
        assert(s.subrange(j, j + 1) =~= seq![s[j]]);
        if s[j] != '/' {
            assert(seq![s[j]][0] != slash()[0]);
        }
    }
}

/// Appending text without `/` to a path appends it to the file name.
proof fn lemma_file_component_append(x: Seq<char>, y: Seq<char>)
    requires
        forall|i: int| 0 <= i < y.len() ==> y[i] != '/',
    ensures
        file_component(x + y) == file_component(x) + y,
{
    let s = x + y;
    assert forall|j: int| matches_at(s, slash(), j) <==> matches_at(x, slash(), j) by {
        lemma_matches_slash(s, j);
        lemma_matches_slash(x, j);
        if x.len() <= j < s.len() {
            assert(s[j] == y[j - x.len()]);
        }
        if 0 <= j < x.len() {
            assert(s[j] == x[j]);
        }
    }
    lemma_rfind_before_is_last(x, slash(), x.len() + 1);
    lemma_rfind_before_is_last(s, slash(), s.len() + 1);
    match rfind(x, slash()) {
        Some(k) => {
            lemma_rfind_before_at(s, slash(), s.len() + 1, k);
            assert(s.subrange(k + 1, s.len() as int) =~= x.subrange(k + 1, x.len() as int) + y);
        },
        None => {
            if rfind(s, slash()) is Some {
                assert(matches_at(x, slash(), rfind(s, slash()).unwrap()));
            }
        },
    }
}

proof fn lemma_trim_png_is_prefix(s: Seq<char>)
    ensures
        trim_png(s).len() <= s.len(),
        trim_png(s) =~= s.subrange(0, trim_png(s).len() as int),
    decreases s.len(),
{
    if ends_with(s, png_extension()) {
        let t = s.subrange(0, s.len() - 4);
        lemma_trim_png_is_prefix(t);
        assert(t.subrange(0, trim_png(t).len() as int) =~= s.subrange(0, trim_png(t).len() as int));
    } else {
        assert(s.subrange(0, s.len() as int) =~= s);
    }
}

/// Reading a number back from its decimal rendering gives the number, for
/// every `i32`; a leading `+` is accepted on non-negative numbers.
pub proof fn lemma_parse_i32_reads_decimal(n: int)
    requires
        i32::MIN <= n <= i32::MAX,
    ensures
        spec_parse_i32(spec_decimal(n)) == Some(n),
        n >= 0 ==> spec_parse_i32(seq!['+'] + spec_decimal(n)) == Some(n),
{
    if n >= 0 {
        lemma_digits_read_back(n as nat);
        let d = spec_decimal(n);
        assert(is_digit(d[0]));
        let plus = seq!['+'] + d;
        assert(plus.subrange(1, plus.len() as int) =~= d);
    } else {
        lemma_digits_read_back((-n) as nat);
        let d = spec_decimal(n);
        assert(d.subrange(1, d.len() as int) =~= spec_digits((-n) as nat));
    }
}

/// Text holding a character that is neither a digit nor a leading sign is
/// not a number.
pub proof fn lemma_parse_i32_rejects_non_digits(s: Seq<char>, i: int)
    requires
        0 <= i < s.len(),
        !is_digit(s[i]),
        i > 0 || (s[0] != '+' && s[0] != '-'),
    ensures
        spec_parse_i32(s) is None,
{
    if s[0] == '+' || s[0] == '-' {
        let body = s.subrange(1, s.len() as int);
        assert(body[i - 1] == s[i]);
    }
}

} // verus!
