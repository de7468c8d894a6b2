//! Which JPEG files are handed to the decoder.
//!
//! For a sequential frame the decoder adds up the brightness differences of a
//! picture's blocks and multiplies the sum by the first entry of a quantiser
//! table, in 32 bits. A file is plain where its header bounds that product:
//! 8-bit quantisers, one scan, and no more blocks than the product has room
//! for. For a progressive frame it multiplies 16 bits by 16 bits, which always
//! fits.
use vstd::prelude::*;

verus! {

/// Second byte of the markers that matter here.
pub const START: u8 = 0xd8;

pub const END: u8 = 0xd9;

pub const BASELINE_FRAME: u8 = 0xc0;

pub const SEQUENTIAL_FRAME: u8 = 0xc1;

pub const PROGRESSIVE_FRAME: u8 = 0xc2;

pub const HUFFMAN_TABLES: u8 = 0xc4;

pub const FIRST_RESTART: u8 = 0xd0;

pub const LAST_RESTART: u8 = 0xd7;

pub const SCAN: u8 = 0xda;

pub const QUANTISERS: u8 = 0xdb;

pub const RESTART_INTERVAL: u8 = 0xdd;

pub const FIRST_APP: u8 = 0xe0;

pub const ADOBE: u8 = 0xee;

pub const LAST_APP: u8 = 0xef;

pub const COMMENT: u8 = 0xfe;

/// Largest class of a brightness difference, and the largest difference in it.
pub const DIFFERENCE_CLASS: u8 = 11;

pub const DIFFERENCE: u64 = 2047;

/// What the decoder adds to the product.
pub const ROUNDING: u64 = 1028;

/// Largest number in 32 bits.
pub const PRODUCT_LIMIT: u64 = 0x7fff_ffff;

/// Longest file.
pub const FILE_LIMIT: u64 = 0xffff_ffff;

/// Bytes of a quantiser table: its number, then one for each frequency.
pub const QUANTISER_BYTES: usize = 65;

// ---------------------------------------------------------------------------
// Segments
// ---------------------------------------------------------------------------

/// Two bytes, the higher one first.
pub open spec fn word(b: Seq<u8>, at: int) -> int {
    256 * b[at] + b[at + 1]
}

/// Kinds of segments that a plain file has before its picture.
pub open spec fn known_kind(kind: u8) -> bool {
    ||| FIRST_APP <= kind <= LAST_APP
    ||| kind == COMMENT
    ||| kind == QUANTISERS
    ||| kind == HUFFMAN_TABLES
    ||| kind == RESTART_INTERVAL
    ||| kind == BASELINE_FRAME
    ||| kind == SEQUENTIAL_FRAME
    ||| kind == PROGRESSIVE_FRAME
    ||| kind == SCAN
}

/// Where the segment at `at` ends. Its length counts all but the marker.
pub open spec fn segment_end(b: Seq<u8>, at: int) -> int {
    at + 2 + word(b, at + 2)
}

/// A whole segment of a known kind starts at `at`.
pub open spec fn is_segment(b: Seq<u8>, at: int) -> bool {
    &&& 0 <= at
    &&& at + 4 <= b.len()
    &&& b[at] == 0xff
    &&& known_kind(b[at + 1])
    &&& word(b, at + 2) >= 2
    &&& segment_end(b, at) <= b.len()
}

/// Where the segments from `at` on start, the last one being the header of a
/// scan. `None` where something else comes first.
pub open spec fn segments(b: Seq<u8>, at: int) -> Option<Seq<int>>
    decreases b.len() - at,
{
    if !is_segment(b, at) {
        None
    } else if b[at + 1] == SCAN {
        Some(seq![at])
    } else {
        match segments(b, segment_end(b, at)) {
            Some(rest) => Some(seq![at] + rest),
            None => None,
        }
    }
}

// ---------------------------------------------------------------------------
// What a segment may hold
// ---------------------------------------------------------------------------

pub open spec fn is_frame(b: Seq<u8>, at: int) -> bool {
    b[at + 1] == BASELINE_FRAME || b[at + 1] == SEQUENTIAL_FRAME || is_progressive(b, at)
}

pub open spec fn is_progressive(b: Seq<u8>, at: int) -> bool {
    b[at + 1] == PROGRESSIVE_FRAME
}

/// Number of colour components of the frame at `at`.
pub open spec fn components(b: Seq<u8>, at: int) -> int {
    b[at + 9] as int
}

/// The frame has one component, or three of which only the first may have
/// twice the samples of the others, across, down or both ways.
pub open spec fn frame_plain(b: Seq<u8>, at: int) -> bool {
    &&& word(b, at + 2) >= 11
    &&& word(b, at + 2) == 8 + 3 * components(b, at)
    &&& {
        ||| components(b, at) == 1 && b[at + 11] == 0x11
        ||| components(b, at) == 3 && (b[at + 11] == 0x11 || b[at + 11] == 0x12 || b[at + 11]
            == 0x21 || b[at + 11] == 0x22) && b[at + 14] == 0x11 && b[at + 17] == 0x11
    }
}

/// Blocks of a component, at most: eight samples a side, padded to pairs.
pub open spec fn blocks(b: Seq<u8>, at: int) -> int {
    4 * (((word(b, at + 7) + 15) / 16) * ((word(b, at + 5) + 15) / 16))
}

/// Room for the product of all differences and this quantiser.
pub open spec fn has_room(blocks: int, quantiser: int) -> bool {
    blocks * (DIFFERENCE * quantiser) + ROUNDING <= PRODUCT_LIMIT
}

/// Every table of the segment has 8-bit entries, and room for its first one.
pub open spec fn quantisers_plain(b: Seq<u8>, at: int, blocks: int) -> bool {
    &&& (word(b, at + 2) - 2) % (QUANTISER_BYTES as int) == 0
    &&& forall|k: int|
        #![trigger b[at + 4 + QUANTISER_BYTES * k]]
        0 <= k < (word(b, at + 2) - 2) / (QUANTISER_BYTES as int) ==> b[at + 4 + QUANTISER_BYTES
            * k] < 16 && has_room(blocks, b[at + 5 + QUANTISER_BYTES * k] as int)
}

/// Codes of the first `n` lengths of the Huffman table at `at`.
pub open spec fn codes(b: Seq<u8>, at: int, n: nat) -> int
    decreases n,
{
    if n == 0 {
        0
    } else {
        codes(b, at, (n - 1) as nat) + b[at + n]
    }
}

/// The tables from `at` to `end` are whole, and those for brightness
/// differences name no class above the largest.
pub open spec fn tables_plain(b: Seq<u8>, at: int, end: int) -> bool
    decreases end - at,
{
    if at >= end {
        at == end
    } else {
        let n = codes(b, at, 16);
        &&& at + 17 + n <= end
        &&& n <= 256
        &&& b[at] < 16 ==> forall|i: int|
            0 <= i < n ==> (#[trigger] b[at + 17 + i]) <= DIFFERENCE_CLASS
        &&& n >= 0 && tables_plain(b, at + 17 + n, end)
    }
}

/// What a segment must be like where the frame is segment `f` of `s`.
pub open spec fn segment_plain(b: Seq<u8>, s: Seq<int>, f: int, k: int) -> bool {
    let at = s[k];
    let kind = b[at + 1];
    &&& is_frame(b, at) <==> k == f
    &&& kind == QUANTISERS && !is_progressive(b, s[f]) ==> quantisers_plain(
        b,
        at,
        blocks(b, s[f]),
    )
    &&& kind == HUFFMAN_TABLES && !is_progressive(b, s[f]) ==> tables_plain(
        b,
        at + 4,
        segment_end(b, at),
    )
    &&& kind == ADOBE ==> k < f
    &&& kind == FIRST_APP ==> word(b, at + 2) != 6
}

/// From `at` on there are samples, stuffed bytes and restarts, up to the end
/// of the picture or of the file.
pub open spec fn scan_plain(b: Seq<u8>, at: int) -> bool
    decreases b.len() - at,
{
    if at + 1 >= b.len() {
        true
    } else if b[at] != 0xff {
        scan_plain(b, at + 1)
    } else if b[at + 1] == END {
        true
    } else {
        &&& b[at + 1] == 0 || FIRST_RESTART <= b[at + 1] <= LAST_RESTART
        &&& scan_plain(b, at + 2)
    }
}

/// The scan whose header is at `at` holds all of `n` components, and nothing
/// else follows.
pub open spec fn only_scan(b: Seq<u8>, at: int, n: int) -> bool {
    &&& word(b, at + 2) == 6 + 2 * n
    &&& b[at + 4] == n
    &&& scan_plain(b, segment_end(b, at))
}

/// The file is plain, with segments `s` of which `f` is the frame. The
/// differences of a sequential frame are added up over one scan.
pub open spec fn plain_about(b: Seq<u8>, s: Seq<int>, f: int) -> bool {
    &&& 0 <= f < s.len()
    &&& is_frame(b, s[f])
    &&& frame_plain(b, s[f])
    &&& forall|k: int| 0 <= k < s.len() ==> #[trigger] segment_plain(b, s, f, k)
    &&& is_progressive(b, s[f]) || only_scan(b, s.last(), components(b, s[f]))
}

/// One of the segments is the frame of a plain file.
pub open spec fn plain_segments(b: Seq<u8>, s: Seq<int>) -> bool {
    exists|f: int| plain_about(b, s, f)
}

/// A file that the decoder can be given. It adds up the lengths of metadata
/// that is spread over several segments in 32 bits, so the file is no longer
/// than that.
pub open spec fn plain(b: Seq<u8>) -> bool {
    &&& 2 <= b.len() <= FILE_LIMIT
    &&& b[0] == 0xff
    &&& b[1] == START
    &&& match segments(b, 2) {
        Some(s) => plain_segments(b, s),
        None => false,
    }
}

// ---------------------------------------------------------------------------
// Looking at a file
// ---------------------------------------------------------------------------

fn word_at(b: &[u8], at: usize) -> (r: usize)
    requires
        at + 2 <= b.len(),
    ensures
        r == word(b@, at as int),
        r <= 65535,
{
    256 * (b[at] as usize) + b[at + 1] as usize
}

fn known(kind: u8) -> (r: bool)
    ensures
        r == known_kind(kind),
{
    (FIRST_APP <= kind && kind <= LAST_APP) || kind == COMMENT || kind == QUANTISERS || kind
        == HUFFMAN_TABLES || kind == RESTART_INTERVAL || kind == BASELINE_FRAME || kind
        == SEQUENTIAL_FRAME || kind == PROGRESSIVE_FRAME || kind == SCAN
}

fn segment_at(b: &[u8], at: usize) -> (r: bool)
    requires
        at <= b.len(),
    ensures
        r == is_segment(b@, at as int),
{
    if b.len() - at < 4 || b[at] != 0xff || !known(b[at + 1]) {
        return false;
    }
    let n: usize = word_at(b, at + 2);
    n >= 2 && n <= b.len() - at - 2
}

/// Where the segments of a file start.
fn list_segments(b: &[u8]) -> (r: Option<Vec<usize>>)
    requires
        b.len() >= 2,
    ensures
        match r {
            Some(v) => {
                &&& segments(b@, 2) == Some(v@.map_values(|i: usize| i as int))
                &&& v.len() > 0
                &&& forall|k: int| 0 <= k < v.len() ==> is_segment(b@, #[trigger] v[k] as int)
            },
            None => segments(b@, 2) is None,
        },
{
    let mut out: Vec<usize> = Vec::new();
    let mut at: usize = 2;
    let ghost ints = |v: Seq<usize>| v.map_values(|i: usize| i as int);
    assert(ints(out@) =~= Seq::<int>::empty());
    assert(segments(b@, 2) matches Some(rest) ==> Seq::<int>::empty() + rest =~= rest);
    while segment_at(b, at)
        invariant
            2 <= at <= b.len(),
            ints == |v: Seq<usize>| v.map_values(|i: usize| i as int),
            segments(b@, 2) == (match segments(b@, at as int) {
                Some(rest) => Some(ints(out@) + rest),
                None => None,
            }),
            forall|k: int| 0 <= k < out.len() ==> is_segment(b@, #[trigger] out[k] as int),
        decreases b.len() - at,
    {
        let ghost before = out@;
        out.push(at);
        assert(ints(out@) =~= ints(before) + seq![at as int]);
        if b[at + 1] == SCAN {
            return Some(out);
        }
        let next: usize = at + 2 + word_at(b, at + 2);
        proof {
            match segments(b@, next as int) {
                Some(rest) => {
                    assert(ints(before) + (seq![at as int] + rest) =~= ints(out@) + rest);
                },
                None => {},
            }
        }
        at = next;
    }
    None
}

fn frame_at(b: &[u8], at: usize) -> (r: bool)
    requires
        is_segment(b@, at as int),
    ensures
        r == is_frame(b@, at as int),
{
    assert(b.len() == b@.len());
    b[at + 1] == BASELINE_FRAME || b[at + 1] == SEQUENTIAL_FRAME || b[at + 1] == PROGRESSIVE_FRAME
}

fn frame_is_plain(b: &[u8], at: usize) -> (r: bool)
    requires
        is_segment(b@, at as int),
    ensures
        r == frame_plain(b@, at as int),
{
    assert(b.len() == b@.len());
    let n: usize = word_at(b, at + 2);
    if n < 11 {
        return false;
    }
    let count: usize = b[at + 9] as usize;
    if n != 8 + 3 * count {
        return false;
    }
    if count == 1 {
        b[at + 11] == 0x11
    } else if count == 3 {
        let first: u8 = b[at + 11];
        (first == 0x11 || first == 0x12 || first == 0x21 || first == 0x22) && b[at + 14] == 0x11
            && b[at + 17] == 0x11
    } else {
        false
    }
}

/// Blocks of the frame at `at`.
fn count_blocks(b: &[u8], at: usize) -> (r: u64)
    requires
        is_segment(b@, at as int),
        frame_plain(b@, at as int),
    ensures
        r == blocks(b@, at as int),
        r <= 0x400_0000,
{
    assert(b.len() == b@.len());
    let across: u64 = (word_at(b, at + 7) as u64 + 15) / 16;
    let down: u64 = (word_at(b, at + 5) as u64 + 15) / 16;
    assert(across * down <= 4096 * 4096) by (nonlinear_arith)
        requires
            across <= 4096,
            down <= 4096,
    ;
    4 * (across * down)
}

fn room(blocks: u64, quantiser: u8) -> (r: bool)
    requires
        blocks <= 0x400_0000,
    ensures
        r == has_room(blocks as int, quantiser as int),
{
    let factor: u64 = DIFFERENCE * quantiser as u64;
    assert(blocks * factor <= 0x400_0000 * 521985) by (nonlinear_arith)
        requires
            blocks <= 0x400_0000,
            factor <= 521985,
    ;
    blocks * factor + ROUNDING <= PRODUCT_LIMIT
}

/// A segment whose tables are all plain.
proof fn all_quantisers(b: Seq<u8>, at: int, blocks: int, count: int)
    requires
        0 <= count,
        word(b, at + 2) - 2 == 65 * count,
        forall|j: int|
            #![trigger b[at + 4 + QUANTISER_BYTES * j]]
            0 <= j < count ==> b[at + 4 + QUANTISER_BYTES * j] < 16 && has_room(
                blocks,
                b[at + 5 + QUANTISER_BYTES * j] as int,
            ),
    ensures
        quantisers_plain(b, at, blocks),
{
    assert((word(b, at + 2) - 2) / (QUANTISER_BYTES as int) == count);
    assert((word(b, at + 2) - 2) % (QUANTISER_BYTES as int) == 0);
}

fn quantisers_are_plain(b: &[u8], at: usize, blocks: u64) -> (r: bool)
    requires
        is_segment(b@, at as int),
        blocks <= 0x400_0000,
    ensures
        r == quantisers_plain(b@, at as int, blocks as int),
{
    assert(b.len() == b@.len());
    let n: usize = word_at(b, at + 2) - 2;
    if n % QUANTISER_BYTES != 0 {
        return false;
    }
    let count: usize = n / QUANTISER_BYTES;
    let mut k: usize = 0;
    while k < count
        invariant
            is_segment(b@, at as int),
            blocks <= 0x400_0000,
            n == word(b@, at + 2) - 2,
            n == QUANTISER_BYTES * count,
            k <= count <= 1008,
            forall|j: int|
                #![trigger b@[at + 4 + QUANTISER_BYTES * j]]
                0 <= j < k ==> b@[at + 4 + QUANTISER_BYTES * j] < 16 && has_room(
                    blocks as int,
                    b@[at + 5 + QUANTISER_BYTES * j] as int,
                ),
        decreases count - k,
    {
        assert(b.len() == b@.len());
        let p: usize = at + 4 + QUANTISER_BYTES * k;
        assert(b@[at + 4 + QUANTISER_BYTES * k] == b@[p as int]);
        if b[p] >= 16 || !room(blocks, b[p + 1]) {
            return false;
        }
        k += 1;
    }
    proof {
        all_quantisers(b@, at as int, blocks as int, count as int);
    }
    true
}

proof fn codes_bound(b: Seq<u8>, at: int, n: nat)
    ensures
        0 <= codes(b, at, n) <= 255 * n,
    decreases n,
{
    if n > 0 {
        codes_bound(b, at, (n - 1) as nat);
    }
}

fn tables_are_plain(b: &[u8], from: usize, end: usize) -> (r: bool)
    requires
        from <= end <= b.len(),
    ensures
        r == tables_plain(b@, from as int, end as int),
{
    let mut at: usize = from;
    while at < end
        invariant
            at <= end <= b.len(),
            tables_plain(b@, from as int, end as int) == tables_plain(b@, at as int, end as int),
        decreases end - at,
    {
        proof {
            codes_bound(b@, at as int, 16);
        }
        if end - at < 17 {
            return false;
        }
        let mut n: usize = 0;
        let mut i: usize = 1;
        while i <= 16
            invariant
                1 <= i <= 17,
                end - at >= 17,
                end <= b.len(),
                n == codes(b@, at as int, (i - 1) as nat),
                n <= 255 * (i - 1),
            decreases 17 - i,
        {
            n = n + b[at + i] as usize;
            i += 1;
        }
        if n > end - at - 17 || n > 256 {
            return false;
        }
        if b[at] < 16 {
            let mut i: usize = 0;
            while i < n
                invariant
                    i <= n <= end - at - 17,
                    at < end <= b.len(),
                    end - at >= 17,
                    b@[at as int] < 16,
                    n == codes(b@, at as int, 16),
                    tables_plain(b@, from as int, end as int) == tables_plain(
                        b@,
                        at as int,
                        end as int,
                    ),
                    forall|j: int| 0 <= j < i ==> (#[trigger] b@[at + 17 + j]) <= DIFFERENCE_CLASS,
                decreases n - i,
            {
                if b[at + 17 + i] > DIFFERENCE_CLASS {
                    assert(b@[at + 17 + i] > DIFFERENCE_CLASS);
                    return false;
                }
                i += 1;
            }
        }
        at = at + 17 + n;
    }
    true
}

fn scan_is_plain(b: &[u8], from: usize) -> (r: bool)
    requires
        from <= b.len(),
    ensures
        r == scan_plain(b@, from as int),
{
    let mut at: usize = from;
    while at < b.len() && b.len() - at > 1
        invariant
            at <= b.len(),
            scan_plain(b@, from as int) == scan_plain(b@, at as int),
        decreases b.len() - at,
    {
        if b[at] != 0xff {
            at = at + 1;
        } else {
            let next: u8 = b[at + 1];
            if next == END {
                return true;
            }
            if next != 0 && (next < FIRST_RESTART || next > LAST_RESTART) {
                return false;
            }
            at = at + 2;
        }
    }
    true
}

/// Whether segment `k` is what it must be where the frame is segment `f`.
fn segment_is_plain(b: &[u8], v: &Vec<usize>, f: usize, k: usize, blocks: u64) -> (r: bool)
    requires
        f < v.len(),
        k < v.len(),
        forall|i: int| 0 <= i < v.len() ==> is_segment(b@, #[trigger] v[i] as int),
        blocks == self::blocks(b@, v[f as int] as int),
        blocks <= 0x400_0000,
    ensures
        r == segment_plain(b@, v@.map_values(|i: usize| i as int), f as int, k as int),
{
    assert(b.len() == b@.len());
    let at: usize = v[k];
    let kind: u8 = b[at + 1];
    let end: usize = at + 2 + word_at(b, at + 2);
    if frame_at(b, at) != (k == f) {
        return false;
    }
    let progressive: bool = b[v[f] + 1] == PROGRESSIVE_FRAME;
    if kind == QUANTISERS {
        progressive || quantisers_are_plain(b, at, blocks)
    } else if kind == HUFFMAN_TABLES {
        progressive || tables_are_plain(b, at + 4, end)
    } else if kind == ADOBE {
        k < f
    } else if kind == FIRST_APP {
        word_at(b, at + 2) != 6
    } else {
        true
    }
}

/// Whether the segments of a file are what they must be where the frame is
/// segment `f`.
fn plain_with(b: &[u8], v: &Vec<usize>, f: usize) -> (r: bool)
    requires
        f < v.len(),
        forall|i: int| 0 <= i < v.len() ==> is_segment(b@, #[trigger] v[i] as int),
    ensures
        r == plain_about(b@, v@.map_values(|i: usize| i as int), f as int),
{
    let ghost s = v@.map_values(|i: usize| i as int);
    if !frame_at(b, v[f]) || !frame_is_plain(b, v[f]) {
        return false;
    }
    let blocks: u64 = count_blocks(b, v[f]);
    let mut k: usize = 0;
    while k < v.len()
        invariant
            k <= v.len(),
            f < v.len(),
            s == v@.map_values(|i: usize| i as int),
            forall|i: int| 0 <= i < v.len() ==> is_segment(b@, #[trigger] v[i] as int),
            blocks == self::blocks(b@, v[f as int] as int),
            blocks <= 0x400_0000,
            forall|j: int| 0 <= j < k ==> #[trigger] segment_plain(b@, s, f as int, j),
        decreases v.len() - k,
    {
        if !segment_is_plain(b, v, f, k, blocks) {
            assert(!segment_plain(b@, s, f as int, k as int));
            return false;
        }
        k += 1;
    }
    assert(b.len() == b@.len());
    if b[v[f] + 1] == PROGRESSIVE_FRAME {
        return true;
    }
    let last: usize = v[v.len() - 1];
    let count: usize = b[v[f] + 9] as usize;
    let n: usize = word_at(b, last + 2);
    if n != 6 + 2 * count || b[last + 4] as usize != count {
        return false;
    }
    scan_is_plain(b, last + 2 + n)
}

/// Whether the decoder can be given a file.
pub fn is_plain(b: &[u8]) -> (r: bool)
    ensures
        r == plain(b@),
{
    if b.len() < 2 || b.len() as u64 > FILE_LIMIT || b[0] != 0xff || b[1] != START {
        return false;
    }
    match list_segments(b) {
        None => false,
        Some(v) => {
            let ghost s = v@.map_values(|i: usize| i as int);
            let mut f: usize = 0;
            while f < v.len()
                invariant
                    f <= v.len(),
                    s == v@.map_values(|i: usize| i as int),
                    segments(b@, 2) == Some(s),
                    forall|i: int| 0 <= i < v.len() ==> is_segment(b@, #[trigger] v[i] as int),
                    forall|i: int| 0 <= i < f ==> !#[trigger] plain_about(b@, s, i),
                    2 <= b.len() <= FILE_LIMIT,
                    b@[0] == 0xff,
                    b@[1] == START,
                decreases v.len() - f,
            {
                if plain_with(b, &v, f) {
                    assert(b.len() == b@.len());
                    assert(plain_about(b@, s, f as int));
                    return true;
                }
                f += 1;
            }
            false
        },
    }
}

// ---------------------------------------------------------------------------
// What a plain file promises
// ---------------------------------------------------------------------------

/// A sum of as many differences as there are blocks, times a quantiser that
/// has room, stays in 32 bits, and so does what is added to it.
pub proof fn products_stay_in_range(blocks: int, quantiser: int, sum: int)
    requires
        has_room(blocks, quantiser),
        0 <= quantiser,
        -(blocks * DIFFERENCE) <= sum <= blocks * DIFFERENCE,
    ensures
        i32::MIN <= sum * quantiser,
        sum * quantiser + ROUNDING <= i32::MAX,
{
    let most = blocks * DIFFERENCE;
    assert(most * quantiser == blocks * (DIFFERENCE * quantiser)) by (nonlinear_arith)
        requires
            most == blocks * DIFFERENCE,
    ;
    assert(-(most * quantiser) <= sum * quantiser <= most * quantiser) by (nonlinear_arith)
        requires
            -most <= sum <= most,
            0 <= quantiser,
    ;
}

/// Every quantiser of a plain sequential file has room, whichever of its tables
/// it is in.
pub proof fn plain_quantisers_have_room(b: Seq<u8>, s: Seq<int>, f: int, k: int, t: int)
    requires
        plain_about(b, s, f),
        !is_progressive(b, s[f]),
        0 <= k < s.len(),
        b[s[k] + 1] == QUANTISERS,
        0 <= t < (word(b, s[k] + 2) - 2) / (QUANTISER_BYTES as int),
    ensures
        has_room(blocks(b, s[f]), b[s[k] + 5 + QUANTISER_BYTES * t] as int),
{
    assert(segment_plain(b, s, f, k));
    assert(b[s[k] + 4 + QUANTISER_BYTES * t] < 16);
}

/// The segments of a file lie end to end from the start of the picture's header
/// on, and the last of them, and no other, starts a scan.
pub proof fn segments_lie_end_to_end(b: Seq<u8>, at: int, k: int)
    requires
        segments(b, at) is Some,
        0 <= k < segments(b, at)->0.len(),
    ensures
        ({
            let s = segments(b, at)->0;
            &&& s[0] == at
            &&& 0 <= s[k] && s[k] + 4 <= b.len()
            &&& b[s[k]] == 0xff
            &&& b[s[k] + 1] == 0xda <==> k == s.len() - 1
            &&& k + 1 < s.len() ==> s[k + 1] == s[k] + 2 + 256 * b[s[k] + 2] + b[s[k] + 3]
            &&& s[k] + 2 + 256 * b[s[k] + 2] + b[s[k] + 3] <= b.len()
        }),
    decreases b.len() - at,
{
    if b[at + 1] != SCAN {
        let next = segment_end(b, at);
        let rest = segments(b, next)->0;
        let s = segments(b, at)->0;
        assert(s =~= seq![at] + rest);
        segments_are_there(b, next);
        if k > 0 {
            segments_lie_end_to_end(b, next, k - 1);
            assert(s[k] == rest[k - 1]);
        } else {
            segments_lie_end_to_end(b, next, 0);
            assert(s[1] == rest[0]);
        }
    }
}

proof fn segments_are_there(b: Seq<u8>, at: int)
    requires
        segments(b, at) is Some,
    ensures
        segments(b, at)->0.len() > 0,
{
}

/// A plain file has one frame, of one component or of three, and a sequential
/// one has one scan of all its components.
pub proof fn plain_files_have_one_frame(b: Seq<u8>, s: Seq<int>, f: int, k: int)
    requires
        plain_about(b, s, f),
        0 <= k < s.len(),
    ensures
        (b[s[k] + 1] == 0xc0 || b[s[k] + 1] == 0xc1 || b[s[k] + 1] == 0xc2) <==> k == f,
        b[s[f] + 9] == 1 || b[s[f] + 9] == 3,
        256 * b[s[f] + 2] + b[s[f] + 3] == 8 + 3 * b[s[f] + 9],
        b[s[f] + 1] != 0xc2 ==> b[s.last() + 4] == b[s[f] + 9],
        b[s[k] + 1] == 0xee ==> k < f,
{
    assert(segment_plain(b, s, f, k));
    assert(segment_plain(b, s, f, f));
}

/// Up to the end of the picture, a plain scan holds no marker but restarts, and
/// stuffed bytes.
pub proof fn scans_hold_samples(b: Seq<u8>, at: int, i: int)
    requires
        scan_plain(b, at),
        at <= i,
        i + 1 < b.len(),
        b[i] == 0xff,
        i > at ==> b[i - 1] != 0xff,
        forall|j: int| at <= j < i ==> !(#[trigger] b[j] == 0xff && b[j + 1] == 0xd9),
    ensures
        b[i + 1] == 0 || 0xd0 <= b[i + 1] <= 0xd7 || b[i + 1] == 0xd9,
    decreases i - at,
{
    if i > at {
        if b[at] != 0xff {
            scans_hold_samples(b, at + 1, i);
        } else {
            assert(b[at + 1] != 0xd9);
            assert(b[at + 1] != 0xff);
            scans_hold_samples(b, at + 2, i);
        }
    }
}

/// A quantiser has room for a number of blocks exactly where no sum of that many
/// differences leaves 32 bits by it, and more blocks leave less room.
pub proof fn room_is_for_all_sums(blocks: int, quantiser: int)
    requires
        0 <= blocks,
        0 <= quantiser,
    ensures
        has_room(blocks, quantiser) <==> 2047 * (blocks * quantiser) + 1028 <= 0x7fff_ffff,
{
    assert(blocks * (2047 * quantiser) == 2047 * (blocks * quantiser)) by (nonlinear_arith);
    assert((blocks * 2047) * quantiser == 2047 * (blocks * quantiser)) by (nonlinear_arith);
}

/// The blocks of a frame cover it: eight samples a side, they hold every sample,
/// and reach less than two blocks beyond it.
pub proof fn blocks_cover_the_picture(b: Seq<u8>, at: int)
    requires
        0 <= at,
        at + 9 <= b.len(),
    ensures
        ({
            let (h, w) = (256 * b[at + 5] + b[at + 6], 256 * b[at + 7] + b[at + 8]);
            &&& w * h <= 64 * blocks(b, at)
            &&& 64 * blocks(b, at) <= (w + 15) * (h + 15)
        }),
{
    let (h, w) = (256 * b[at + 5] + b[at + 6], 256 * b[at + 7] + b[at + 8]);
    let (x, y) = ((w + 15) / 16, (h + 15) / 16);
    assert(w * h <= 256 * (x * y)) by (nonlinear_arith)
        requires
            0 <= w <= 16 * x,
            0 <= h <= 16 * y,
    ;
    assert(256 * (x * y) <= (w + 15) * (h + 15)) by (nonlinear_arith)
        requires
            0 <= 16 * x <= w + 15,
            0 <= 16 * y <= h + 15,
    ;
}

/// A table is as long as the counts of its sixteen lengths say, and the tables
/// of a segment lie end to end. One for brightness differences names no class
/// above eleven.
pub proof fn tables_lie_end_to_end(b: Seq<u8>, at: int, end: int, i: int)
    requires
        tables_plain(b, at, end),
        at < end,
    ensures
        ({
            let n = b[at + 1] + b[at + 2] + b[at + 3] + b[at + 4] + b[at + 5] + b[at + 6] + b[at + 7]
                + b[at + 8] + b[at + 9] + b[at + 10] + b[at + 11] + b[at + 12] + b[at + 13] + b[at
                + 14] + b[at + 15] + b[at + 16];
            &&& n == codes(b, at, 16)
            &&& n <= 256
            &&& at + 17 + n <= end
            &&& tables_plain(b, at + 17 + n, end)
            &&& b[at] < 16 && 0 <= i < n ==> b[at + 17 + i] <= 11
        }),
{
    reveal_with_fuel(codes, 17);
}

/// Segments of known kinds are metadata, comments, tables, restarts, frames and
/// scans. Other frames are not: lossless, hierarchical and arithmetic ones.
pub proof fn known_kinds_are_plain(kind: u8)
    ensures
        0xe0 <= kind <= 0xef ==> known_kind(kind),
        0xc0 <= kind <= 0xcf ==> (known_kind(kind) <==> kind <= 0xc2 || kind == 0xc4),
        0xd0 <= kind <= 0xdf ==> (known_kind(kind) <==> kind == 0xda || kind == 0xdb || kind
            == 0xdd),
        kind >= 0xf0 ==> (known_kind(kind) <==> kind == 0xfe),
        known_kind(kind) ==> kind >= 0xc0,
{
}

/// Samples of a plain frame: a single component has one to a block, and of three
/// the first has as many as the others or twice as many, either way or both.
pub proof fn plain_frames_have_plain_sampling(b: Seq<u8>, at: int)
    requires
        frame_plain(b, at),
    ensures
        ({
            let (across, down) = (b[at + 11] / 16, b[at + 11] % 16);
            &&& 1 <= across <= 2 && 1 <= down <= 2
            &&& b[at + 9] == 1 ==> across == 1 && down == 1
            &&& b[at + 9] == 3 ==> b[at + 14] == 0x11 && b[at + 17] == 0x11
        }),
{
}

} // verus!
