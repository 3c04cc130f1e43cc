//! The plain-text RGB image format: a `P3` line, `<width> <height>`, the
//! maximum channel value, then one `r g b` line per pixel in row-major order.

use itertools::Itertools;
use vstd::prelude::*;

verus! {

/// True for the ASCII digits `0`..`9`.
pub open spec fn is_digit(c: char) -> bool {
    '0' <= c && c <= '9'
}

/// The digit character for `d < 10`.
pub open spec fn digit_char(d: nat) -> char {
    ((d + '0' as nat) as u8) as char
}

/// The decimal spelling of `n`, without leading zeros.
pub open spec fn decimal(n: nat) -> Seq<char>
    decreases n,
{
    if n < 10 {
        seq![digit_char(n)]
    } else {
        decimal(n / 10) + seq![digit_char(n % 10)]
    }
}

/// Relies on `ToString` for `u32` (its `Display`): the decimal digits of `n`.
#[verifier::external_body]
fn decimal_text(n: u32) -> (r: String)
    ensures
        r@ == decimal(n as nat),
{
    n.to_string()
}

/// One pixel with 8-bit channels.
#[derive(Clone, Copy, Debug, PartialEq, Eq, Structural)]
pub struct Rgb {
    pub r: u8,
    pub g: u8,
    pub b: u8,
}

/// The text line of one pixel: its three channels, separated by spaces.
pub open spec fn pixel_text(p: Rgb) -> Seq<char> {
    decimal(p.r as nat) + seq![' '] + decimal(p.g as nat) + seq![' '] + decimal(p.b as nat)
}

/// Formats one pixel as `r g b`.
pub fn pixel_line(p: Rgb) -> (r: String)
    ensures
        r@ == pixel_text(p),
{
    let mut s = decimal_text(p.r as u32);
    s.append(" ");
    let g = decimal_text(p.g as u32);
    s.append(g.as_str());
    s.append(" ");
    let b = decimal_text(p.b as u32);
    s.append(b.as_str());
    proof {
        reveal_strlit(" ");
    }
    s
}


/// `parts` in order, with `sep` between each two neighbours.
pub open spec fn joined(parts: Seq<Seq<char>>, sep: Seq<char>) -> Seq<char>
    decreases parts.len(),
{
    if parts.len() == 0 {
        Seq::empty()
    } else if parts.len() == 1 {
        parts[0]
    } else {
        joined(parts.drop_last(), sep) + sep + parts.last()
    }
}

/// Relies on `itertools::Itertools::join`: it writes the first item, then
/// `sep` and the next item for each further one.
#[verifier::external_body]
fn join_with(parts: &Vec<String>, sep: &str) -> (r: String)
    ensures
        r@ == joined(parts@.map_values(|s: String| s@), sep@),
{
    parts.iter().join(sep)
}

/// The largest channel value that the format declares.
pub const MAX_VALUE: u8 = 255;

/// The pixel lines of a frame, in order.
pub open spec fn pixel_lines(pixels: Seq<Rgb>) -> Seq<Seq<char>> {
    pixels.map_values(|p: Rgb| pixel_text(p))
}

/// The whole text of a frame of `width` by `height` pixels.
pub open spec fn ppm_text(width: nat, height: nat, pixels: Seq<Rgb>) -> Seq<char> {
    seq!['P', '3', '\n'] + decimal(width) + seq![' '] + decimal(height) + seq!['\n']
        + decimal(255) + seq!['\n'] + joined(pixel_lines(pixels), seq!['\n']) + seq!['\n']
}

/// Writes a frame in the text format. `pixels` holds the rows from top to
/// bottom, each from left to right.
pub fn encode_ppm(width: u32, height: u32, pixels: &Vec<Rgb>) -> (r: String)
    requires
        pixels@.len() == width as nat * height as nat,
    ensures
        r@ == ppm_text(width as nat, height as nat, pixels@),
{
    let mut lines: Vec<String> = Vec::new();
    let mut k: usize = 0;
    while k < pixels.len()
        invariant
            k <= pixels@.len(),
            lines@.len() == k,
            forall|m: int| 0 <= m < k ==> #[trigger] lines@[m]@ == pixel_text(pixels@[m]),
        decreases pixels@.len() - k,
    {
        let line = pixel_line(pixels[k]);
        lines.push(line);
        k = k + 1;
    }
    assert(lines@.map_values(|s: String| s@) =~= pixel_lines(pixels@));
    let body = join_with(&lines, "\n");
    let mut out = String::new();
    out.append("P3\n");
    let w = decimal_text(width);
    out.append(w.as_str());
    out.append(" ");
    let h = decimal_text(height);
    out.append(h.as_str());
    out.append("\n");
    let m = decimal_text(MAX_VALUE as u32);
    out.append(m.as_str());
    out.append("\n");
    out.append(body.as_str());
    out.append("\n");
    proof {
        reveal_strlit("P3\n");
        reveal_strlit(" ");
        reveal_strlit("\n");
        assert("\n"@ =~= seq!['\n']);
        assert("P3\n"@ =~= seq!['P', '3', '\n']);
        assert(" "@ =~= seq![' ']);
        assert(body@ == joined(pixel_lines(pixels@), seq!['\n']));
        assert(m@ == decimal(255));
        assert(out@ =~= ppm_text(width as nat, height as nat, pixels@));
    }
    out
}


/// The value of a digit character.
pub open spec fn digit_value(c: char) -> nat {
    ((c as u32) - ('0' as u32)) as nat
}

/// The number that a run of digits spells.
pub open spec fn value_of(ds: Seq<char>) -> nat
    decreases ds.len(),
{
    if ds.len() == 0 {
        0
    } else {
        value_of(ds.drop_last()) * 10 + digit_value(ds.last())
    }
}

/// How many digits stand in `s` from index `i` on.
pub open spec fn digit_run(s: Seq<char>, i: int) -> nat
    decreases s.len() - i,
{
    if 0 <= i < s.len() && is_digit(s[i]) {
        1 + digit_run(s, i + 1)
    } else {
        0
    }
}

/// The number spelled at `i` and followed by `sep`, with the index just
/// after `sep`; none where no digit stands at `i` or `sep` does not follow.
pub open spec fn field_at(s: Seq<char>, i: int, sep: char) -> Option<(nat, int)> {
    let n = digit_run(s, i);
    let j = i + n;
    if n > 0 && j < s.len() && s[j] == sep {
        Some((value_of(s.subrange(i, j)), j + 1))
    } else {
        None
    }
}

/// Width, height and maximum value of a text that starts with a header of
/// the format; none where it does not.
pub open spec fn header_of(s: Seq<char>) -> Option<(nat, nat, nat)> {
    if s.len() >= 3 && s[0] == 'P' && s[1] == '3' && s[2] == '\n' {
        match field_at(s, 3, ' ') {
            Some((w, i)) => match field_at(s, i, '\n') {
                Some((h, j)) => match field_at(s, j, '\n') {
                    Some((m, _)) => Some((w, h, m)),
                    None => None,
                },
                None => None,
            },
            None => None,
        }
    } else {
        None
    }
}

/// The header of a frame in the text format.
#[derive(Clone, Copy, Debug, PartialEq, Eq, Structural)]
pub struct Header {
    pub width: u32,
    pub height: u32,
    pub max_value: u32,
}

/// True where each field of a parsed header fits in a `u32`.
pub open spec fn fits_u32(f: (nat, nat, nat)) -> bool {
    f.0 <= u32::MAX && f.1 <= u32::MAX && f.2 <= u32::MAX
}

proof fn lemma_run_split(s: Seq<char>, i: int, j: int)
    requires
        0 <= i <= j <= s.len(),
        forall|k: int| i <= k < j ==> is_digit(#[trigger] s[k]),
    ensures
        digit_run(s, i) == (j - i) + digit_run(s, j),
    decreases j - i,
{
    if i < j {
        lemma_run_split(s, i + 1, j);
    }
}

proof fn lemma_run_bound(s: Seq<char>, i: int)
    requires
        0 <= i <= s.len(),
    ensures
        i + digit_run(s, i) <= s.len(),
    decreases s.len() - i,
{
    if i < s.len() {
        lemma_run_bound(s, i + 1);
    }
}

proof fn lemma_value_prefix(t: Seq<char>, k: int)
    requires
        0 <= k <= t.len(),
    ensures
        value_of(t.subrange(0, k)) <= value_of(t),
    decreases t.len() - k,
{
    if k == t.len() {
        assert(t.subrange(0, k) =~= t);
    } else {
        lemma_value_prefix(t.drop_last(), k);
        assert(t.drop_last().subrange(0, k) =~= t.subrange(0, k));
    }
}

/// Whether a digit stands at index `j`.
fn digit_at(s: &str, len: usize, j: usize) -> (r: bool)
    requires
        len == s@.len(),
    ensures
        r == (j < len && is_digit(s@[j as int])),
{
    if j < len {
        let c = s.get_char(j);
        '0' <= c && c <= '9'
    } else {
        false
    }
}

/// Reads the number at `i` and the `sep` after it.
fn read_field(s: &str, len: usize, i: usize, sep: char) -> (r: Option<(u32, usize)>)
    requires
        len == s@.len(),
        i <= len,
    ensures
        match r {
            Some((v, j)) => field_at(s@, i as int, sep) == Some((v as nat, j as int)),
            None => match field_at(s@, i as int, sep) {
                Some((v, _)) => v > u32::MAX,
                None => true,
            },
        },
{
    let mut j: usize = i;
    let mut acc: u64 = 0;
    while digit_at(s, len, j)
        invariant
            i <= j <= len,
            len == s@.len(),
            forall|k: int| i <= k < j ==> is_digit(#[trigger] s@[k]),
            acc as nat == value_of(s@.subrange(i as int, j as int)),
            acc <= u32::MAX,
        decreases len - j,
    {
        let c = s.get_char(j);
        let d = (c as u32 - '0' as u32) as u64;
        acc = acc * 10 + d;
        assert(s@.subrange(i as int, j + 1).drop_last() =~= s@.subrange(i as int, j as int));
        j = j + 1;
        if acc > u32::MAX as u64 {
            proof {
                lemma_run_split(s@, i as int, j as int);
                lemma_run_bound(s@, j as int);
                let n = digit_run(s@, i as int);
                let t = s@.subrange(i as int, i + n);
                lemma_value_prefix(t, j - i);
                assert(t.subrange(0, j - i) =~= s@.subrange(i as int, j as int));
            }
            return None;
        }
    }
    proof {
        lemma_run_split(s@, i as int, j as int);
    }
    if j > i && j < len && s.get_char(j) == sep {
        Some((acc as u32, j + 1))
    } else {
        None
    }
}

/// Reads the header of a text in the format: `P3`, then width and height
/// separated by a space, then the maximum value, each line ended by `\n`.
/// None where the text does not start so or a field does not fit in a `u32`.
pub fn parse_header(text: &str) -> (r: Option<Header>)
    ensures
        match r {
            Some(h) => header_of(text@) == Some(
                (h.width as nat, h.height as nat, h.max_value as nat),
            ),
            None => match header_of(text@) {
                Some(f) => !fits_u32(f),
                None => true,
            },
        },
{
    let len = text.unicode_len();
    if len < 3 || text.get_char(0) != 'P' || text.get_char(1) != '3' || text.get_char(2) != '\n' {
        return None;
    }
    let (width, i) = match read_field(text, len, 3, ' ') {
        Some(f) => f,
        None => return None,
    };
    let (height, j) = match read_field(text, len, i, '\n') {
        Some(f) => f,
        None => return None,
    };
    let (max_value, _) = match read_field(text, len, j, '\n') {
        Some(f) => f,
        None => return None,
    };
    Some(Header { width, height, max_value })
}


proof fn lemma_decimal(n: nat)
    ensures
        decimal(n).len() >= 1,
        forall|k: int| 0 <= k < decimal(n).len() ==> is_digit(#[trigger] decimal(n)[k]),
        value_of(decimal(n)) == n,
    decreases n,
{
    let d = n % 10;
    assert(is_digit(digit_char(d)) && digit_value(digit_char(d)) == d);
    if n >= 10 {
        lemma_decimal(n / 10);
        assert(decimal(n).drop_last() =~= decimal(n / 10));
        assert(decimal(n).last() == digit_char(d));
        assert(n == (n / 10) * 10 + d);
        assert(value_of(decimal(n)) == value_of(decimal(n / 10)) * 10 + digit_value(
            digit_char(d),
        ));
    } else {
        assert(decimal(n).drop_last() =~= Seq::<char>::empty());
        assert(value_of(decimal(n)) == value_of(Seq::<char>::empty()) * 10 + digit_value(
            digit_char(d),
        ));
    }
}

proof fn lemma_field_of_decimal(s: Seq<char>, i: int, n: nat, sep: char)
    requires
        0 <= i,
        i + decimal(n).len() < s.len(),
        s.subrange(i, i + decimal(n).len()) == decimal(n),
        s[i + decimal(n).len()] == sep,
        !is_digit(sep),
    ensures
        field_at(s, i, sep) == Some((n, i + decimal(n).len() + 1)),
{
    let len = decimal(n).len() as int;
    lemma_decimal(n);
    assert forall|k: int| i <= k < i + len implies is_digit(#[trigger] s[k]) by {
        assert(s[k] == s.subrange(i, i + len)[k - i]);
    }
    lemma_run_split(s, i, i + len);
}

/// Writing a frame in the text format and reading back its header gives the
/// frame's width and height and the maximum value 255.
pub proof fn lemma_header_round_trip(width: u32, height: u32, pixels: Seq<Rgb>)
    ensures
        header_of(ppm_text(width as nat, height as nat, pixels)) == Some(
            (width as nat, height as nat, 255nat),
        ),
{
    let s = ppm_text(width as nat, height as nat, pixels);
    let dw = decimal(width as nat);
    let dh = decimal(height as nat);
    let dm = decimal(255);
    let rest = joined(pixel_lines(pixels), seq!['\n']) + seq!['\n'];
    let a = seq!['P', '3', '\n'] + dw;
    let b = a + seq![' '] + dh;
    let c = b + seq!['\n'] + dm;
    assert(s =~= c + seq!['\n'] + rest);
    let i1: int = 3;
    let i2: int = a.len() as int + 1;
    let i3: int = b.len() as int + 1;
    assert(s.subrange(i1, i1 + dw.len()) =~= dw);
    assert(s.subrange(i2, i2 + dh.len()) =~= dh);
    assert(s.subrange(i3, i3 + dm.len()) =~= dm);
    assert(s[a.len() as int] == ' ');
    assert(s[b.len() as int] == '\n');
    assert(s[c.len() as int] == '\n');
    lemma_field_of_decimal(s, i1, width as nat, ' ');
    lemma_field_of_decimal(s, i2, height as nat, '\n');
    lemma_field_of_decimal(s, i3, 255, '\n');
}

} // verus!
