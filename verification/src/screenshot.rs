//! Screenshots: file names, and images in the portable pixmap format.
use crate::text;
use crate::text::{chars_of, push_decimal};
use vstd::prelude::*;
use vstd::string::*;

verus! {

// ---------------------------------------------------------------------------
// File names
// ---------------------------------------------------------------------------

/// Place of the last dot in a path.
pub open spec fn last_dot(path: Seq<char>) -> Option<int>
    decreases path.len(),
{
    if path.len() == 0 {
        None
    } else if path.last() == '.' {
        Some(path.len() - 1)
    } else {
        last_dot(path.drop_last())
    }
}

/// A path with a number before its extension.
pub open spec fn numbered(path: Seq<char>, n: u64) -> Seq<char> {
    match last_dot(path) {
        Some(dot) => path.take(dot) + "-"@ + text::decimal(n as nat) + path.skip(dot),
        None => path + "-"@ + text::decimal(n as nat),
    }
}

/// The number goes before the last dot of a path: what follows holds no other.
pub proof fn last_dot_is_last(path: Seq<char>)
    ensures
        match last_dot(path) {
            Some(dot) => {
                &&& 0 <= dot < path.len()
                &&& path[dot] == '.'
                &&& forall|k: int| dot < k < path.len() ==> #[trigger] path[k] != '.'
            },
            None => forall|k: int| 0 <= k < path.len() ==> #[trigger] path[k] != '.',
        },
    decreases path.len(),
{
    if path.len() > 0 && path.last() != '.' {
        let shorter = path.drop_last();
        last_dot_is_last(shorter);
        assert forall|k: int| 0 <= k < shorter.len() implies path[k] == shorter[k] by {}
    }
}

/// Path of the screenshot of present `n`: the number goes before the
/// extension, or to the end of a path without one.
pub fn numbered_path(path: &str, n: u64) -> (r: String)
    ensures
        r@ == numbered(path@, n),
{
    let chars: Vec<char> = chars_of(path);
    let mut i: usize = chars.len();
    let ghost s = chars@;
    assert(s.take(i as int) =~= s);
    while i > 0 && chars[i - 1] != '.'
        invariant
            s == chars@,
            i <= chars.len(),
            last_dot(s) == last_dot(s.take(i as int)),
        decreases i,
    {
        assert(s.take(i as int).drop_last() =~= s.take(i - 1));
        i -= 1;
    }
    if i == 0 {
        assert(last_dot(s) is None);
        let mut out: String = path.to_owned();
        out.append("-");
        push_decimal(&mut out, n as u128);
        out
    } else {
        let dot: usize = i - 1;
        assert(s.take(i as int).last() == s[dot as int]);
        assert(last_dot(s) == Some(dot as int));
        let mut out: String = path.substring_char(0, dot).to_owned();
        assert(path@.subrange(0, dot as int) =~= path@.take(dot as int));
        out.append("-");
        push_decimal(&mut out, n as u128);
        out.append(path.substring_char(dot, chars.len()));
        assert(path@.subrange(dot as int, s.len() as int) =~= path@.skip(dot as int));
        out
    }
}

// ---------------------------------------------------------------------------
// Pixels
// ---------------------------------------------------------------------------

/// ASCII bytes of the decimal text of a number.
pub open spec fn decimal_bytes(n: nat) -> Seq<u8> {
    text::decimal(n).map_values(|c: char| c as u8)
}

/// Header of a pixmap with 8 bits per channel.
pub open spec fn ppm_header(w: nat, h: nat) -> Seq<u8> {
    seq![80u8, 54, 10] + decimal_bytes(w) + seq![32u8] + decimal_bytes(h) + seq![
        10u8,
        50,
        53,
        53,
        10,
    ]
}

/// Red, green and blue of every pixel of an image that stores blue, green,
/// red and alpha.
pub open spec fn rgb(pixels: Seq<u8>) -> Seq<u8> {
    Seq::new(3 * (pixels.len() / 4), |i: int| pixels[4 * (i / 3) + 2 - i % 3])
}

fn push_decimal_bytes(out: &mut Vec<u8>, n: u64)
    ensures
        final(out)@ == old(out)@ + decimal_bytes(n as nat),
    decreases n,
{
    if n >= 10 {
        push_decimal_bytes(out, n / 10);
    }
    out.push(48 + (n % 10) as u8);
    proof {
        let d = n % 10;
        assert(text::digit_char(d as nat) as u8 == (48 + d) as u8);
        assert(out@ =~= old(out)@ + decimal_bytes(n as nat));
    }
}

/// An image as a pixmap file. `pixels` holds blue, green, red and alpha of
/// each pixel, top row first.
pub fn ppm(width: u32, height: u32, pixels: &Vec<u8>) -> (r: Vec<u8>)
    requires
        pixels.len() == 4 * (width * height),
    ensures
        r@ == ppm_header(width as nat, height as nat) + rgb(pixels@),
{
    let mut out: Vec<u8> = Vec::new();
    out.push(80);
    out.push(54);
    out.push(10);
    assert(out@ =~= seq![80u8, 54, 10]);
    push_decimal_bytes(&mut out, width as u64);
    out.push(32);
    push_decimal_bytes(&mut out, height as u64);
    out.push(10);
    out.push(50);
    out.push(53);
    out.push(53);
    out.push(10);
    let ghost header = ppm_header(width as nat, height as nat);
    assert(out@ =~= header);
    let n: usize = pixels.len() / 4;
    let mut i: usize = 0;
    assert(rgb(pixels@).take(0) =~= Seq::empty());
    assert(out@ =~= header + rgb(pixels@).take(0));
    while i < n
        invariant
            n == pixels.len() / 4,
            i <= n,
            out@ == header + rgb(pixels@).take(3 * i),
        decreases n - i,
    {
        out.push(pixels[4 * i + 2]);
        out.push(pixels[4 * i + 1]);
        out.push(pixels[4 * i]);
        proof {
            let t = rgb(pixels@);
            let j = 3 * i;
            assert(j / 3 == i && j % 3 == 0);
            assert((j + 1) / 3 == i && (j + 1) % 3 == 1);
            assert((j + 2) / 3 == i && (j + 2) % 3 == 2);
            assert(t.take(j + 3) =~= t.take(j).push(t[j]).push(t[j + 1]).push(t[j + 2]));
            assert(out@ =~= header + t.take(j + 3));
        }
        i += 1;
    }
    assert(rgb(pixels@).take(3 * n) =~= rgb(pixels@));
    out
}

/// A numbered path is the path with a hyphen and the number put in: before the
/// extension where it has one, at the end where it has none. Different numbers
/// give different paths.
pub proof fn numbers_go_before_the_extension(path: Seq<char>, n: u64, m: u64) -> (r: (
    Seq<char>,
    Seq<char>,
))
    ensures
        path == r.0 + r.1,
        numbered(path, n) == r.0 + seq!['-'] + text::decimal(n as nat) + r.1,
        r.1.len() > 0 ==> r.1[0] == '.',
        forall|i: int| 1 <= i < r.1.len() ==> #[trigger] r.1[i] != '.',
        r.1.len() == 0 ==> forall|i: int| 0 <= i < path.len() ==> #[trigger] path[i] != '.',
        numbered(path, n) == numbered(path, m) ==> n == m,
{
    last_dot_is_last(path);
    reveal_strlit("-");
    assert("-"@ =~= seq!['-']);
    let at = match last_dot(path) {
        Some(dot) => dot,
        None => path.len() as int,
    };
    let (a, b) = (path.take(at), path.skip(at));
    assert(path =~= a + b);
    assert(numbered(path, n) =~= a + seq!['-'] + text::decimal(n as nat) + b);
    assert(numbered(path, m) =~= a + seq!['-'] + text::decimal(m as nat) + b);
    if numbered(path, n) == numbered(path, m) {
        let (x, y) = (text::decimal(n as nat), text::decimal(m as nat));
        let whole = numbered(path, n);
        assert(x =~= whole.subrange(at + 1, at + 1 + x.len()));
        assert(y =~= whole.subrange(at + 1, at + 1 + y.len()));
        assert(x.len() == y.len());
        text::decimals_are_unique(n as nat, m as nat);
    }
    (a, b)
}

/// The pixels of a pixmap keep their places, and each its colour: red, green
/// and blue stand in that order, and alpha is left out.
pub proof fn pixels_keep_their_colours(pixels: Seq<u8>, p: int)
    requires
        pixels.len() % 4 == 0,
        0 <= p < pixels.len() / 4,
    ensures
        4 * rgb(pixels).len() == 3 * pixels.len(),
        rgb(pixels)[3 * p] == pixels[4 * p + 2],
        rgb(pixels)[3 * p + 1] == pixels[4 * p + 1],
        rgb(pixels)[3 * p + 2] == pixels[4 * p],
{
}

/// Read as text, a header is the magic of a binary pixmap, the width and the
/// height in decimal, and the largest value of a channel.
pub proof fn headers_tell_the_size(w: nat, h: nat)
    ensures
        ppm_header(w, h).map_values(|b: u8| b as char) == "P6\n"@ + text::decimal(w) + " "@
            + text::decimal(h) + "\n255\n"@,
{
    reveal_strlit("P6\n");
    reveal_strlit(" ");
    reveal_strlit("\n255\n");
    text::decimal_denotes(w);
    text::decimal_denotes(h);
    let read = ppm_header(w, h).map_values(|b: u8| b as char);
    let told = "P6\n"@ + text::decimal(w) + " "@ + text::decimal(h) + "\n255\n"@;
    assert forall|i: int| 0 <= i < text::decimal(w).len() implies (#[trigger] decimal_bytes(w)[i]
        as char) == text::decimal(w)[i] by {
        assert(text::is_digit(text::decimal(w)[i]));
    }
    assert forall|i: int| 0 <= i < text::decimal(h).len() implies (#[trigger] decimal_bytes(h)[i]
        as char) == text::decimal(h)[i] by {
        assert(text::is_digit(text::decimal(h)[i]));
    }
    assert(read =~= told);
}

} // verus!
