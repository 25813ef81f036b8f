//! Selection of the best icon variant among the candidates carried by a
//! PE file, and the error kinds of the whole lookup pipeline.

use vstd::prelude::*;

use crate::bytes::{read_be32_signed, spec_be32, spec_le16, spec_signed32};
use crate::dib;
use crate::dib::BitmapInfoHeader;
use crate::icon_group::entry_matches;
use crate::icon_group::group_dir_wf;
use crate::icon_group::spec_entry_bytes;
use crate::icon_group::IconGroupDirectory;

verus! {

/// Everything that can go wrong while looking an icon up.
#[derive(Copy, Clone, Debug, PartialEq, Eq, Structural)]
pub enum LookupError {
    /// The file could not be opened or read.
    IoFailure,
    /// The path was not valid text.
    EncodingFailure,
    /// The PE header is malformed, or a bounds or format violation was found
    /// in a resource or group-icon structure.
    FormatError,
    /// A resource type, group, language or requested icon id is absent, or
    /// the candidate set is empty.
    NoIconFound,
    /// The bitmap declares more than one plane.
    PlanarNotSupported,
    /// The bitmap declares a bit depth the decoder does not handle.
    UnrecognizedBPP,
    /// The bitmap declares a compression other than none.
    UnknownCompression,
    /// A PNG-signed buffer is too short or lacks its header chunk.
    MalformedPng,
}

/// The fixed 8-byte PNG signature.
pub open spec fn png_signature() -> Seq<u8> {
    seq![0x89u8, 0x50u8, 0x4eu8, 0x47u8, 0x0du8, 0x0au8, 0x1au8, 0x0au8]
}

/// A buffer is classified as PNG when it starts with the PNG signature.
pub open spec fn spec_is_png(b: Seq<u8>) -> bool {
    b.len() >= 8 && b[0] == 0x89 && b[1] == 0x50 && b[2] == 0x4e && b[3] == 0x47 && b[4] == 0x0d
        && b[5] == 0x0a && b[6] == 0x1a && b[7] == 0x0a
}

/// A buffer is PNG exactly when its first 8 bytes equal the fixed PNG
/// signature.
pub proof fn lemma_png_classification(b: Seq<u8>)
    ensures
        spec_is_png(b) <==> b.len() >= 8 && b.subrange(0, 8) =~= png_signature(),
{
    if b.len() >= 8 && b.subrange(0, 8) =~= png_signature() {
        assert(b[0] == b.subrange(0, 8)[0]);
        assert(b[1] == b.subrange(0, 8)[1]);
        assert(b[2] == b.subrange(0, 8)[2]);
        assert(b[3] == b.subrange(0, 8)[3]);
        assert(b[4] == b.subrange(0, 8)[4]);
        assert(b[5] == b.subrange(0, 8)[5]);
        assert(b[6] == b.subrange(0, 8)[6]);
        assert(b[7] == b.subrange(0, 8)[7]);
    }
}

pub fn is_png(bytes: &[u8]) -> (r: bool)
    ensures
        r == spec_is_png(bytes@),
{
    bytes.len() >= 8 && bytes[0] == 0x89 && bytes[1] == 0x50 && bytes[2] == 0x4e && bytes[3]
        == 0x47 && bytes[4] == 0x0d && bytes[5] == 0x0a && bytes[6] == 0x1a && bytes[7] == 0x0a
}

/// A PNG buffer that carries a readable header chunk: long enough for the
/// dimension fields and with `"IHDR"` at bytes 12 to 16.
pub open spec fn png_header_wf(b: Seq<u8>) -> bool {
    b.len() >= 24 && b[12] == 0x49 && b[13] == 0x48 && b[14] == 0x44 && b[15] == 0x52
}

/// The leading bytes of a PNG image, exposing the dimensions stored in its
/// header chunk.
#[derive(Copy, Clone)]
pub struct PngHeader<'a> {
    bytes: &'a [u8],
}

impl<'a> View for PngHeader<'a> {
    type V = Seq<u8>;

    closed spec fn view(&self) -> Seq<u8> {
        self.bytes@
    }
}

impl<'a> PngHeader<'a> {
    pub open spec fn wf(self) -> bool {
        png_header_wf(self@)
    }

    /// Accepts a buffer holding at least 24 bytes with `"IHDR"` at bytes
    /// 12 to 16; anything else is a malformed PNG.
    pub fn from_bytes(bytes: &'a [u8]) -> (r: Result<PngHeader<'a>, LookupError>)
        ensures
            match r {
                Ok(h) => png_header_wf(bytes@) && h@ == bytes@ && h.wf(),
                Err(e) => e == LookupError::MalformedPng && !png_header_wf(bytes@),
            },
    {
        if bytes.len() < 24 || bytes[12] != 0x49 || bytes[13] != 0x48 || bytes[14] != 0x44
            || bytes[15] != 0x52 {
            Err(LookupError::MalformedPng)
        } else {
            Ok(PngHeader { bytes })
        }
    }

    /// Width: the big-endian 32-bit field at offset 16.
    pub fn width(&self) -> (r: i32)
        requires
            self.wf(),
        ensures
            r == spec_signed32(spec_be32(self@, 16)),
    {
        read_be32_signed(self.bytes, 16)
    }

    /// Height: the big-endian 32-bit field at offset 20.
    pub fn height(&self) -> (r: i32)
        requires
            self.wf(),
        ensures
            r == spec_signed32(spec_be32(self@, 20)),
    {
        read_be32_signed(self.bytes, 20)
    }
}

/// The comparison key of one icon candidate: width first, then height,
/// then bit depth.
#[derive(Copy, Clone, Debug, PartialEq, Eq, Structural)]
pub struct IconKey {
    pub width: i32,
    pub height: i32,
    pub bit_count: u16,
}

impl IconKey {
    /// The key as a mathematical triple.
    pub open spec fn spec_tuple(self) -> (int, int, int) {
        (self.width as int, self.height as int, self.bit_count as int)
    }
}

/// Strict lexicographic order on comparison keys.
pub open spec fn spec_key_gt(a: (int, int, int), b: (int, int, int)) -> bool {
    a.0 > b.0 || (a.0 == b.0 && (a.1 > b.1 || (a.1 == b.1 && a.2 > b.2)))
}

/// The comparison key a candidate buffer resolves to, or the error raised
/// while reading it: PNG buffers carry the sentinel bit depth 64, which
/// outranks every legacy bit depth; legacy buffers use their header fields.
pub open spec fn spec_icon_key(b: Seq<u8>) -> Result<(int, int, int), LookupError> {
    if spec_is_png(b) {
        if png_header_wf(b) {
            Ok((spec_signed32(spec_be32(b, 16)), spec_signed32(spec_be32(b, 20)), 64))
        } else {
            Err(LookupError::MalformedPng)
        }
    } else {
        if dib::dib_header_wf(b) {
            Ok((dib::dib_width(b), dib::dib_height(b), dib::dib_bit_count(b)))
        } else {
            Err(LookupError::FormatError)
        }
    }
}

pub fn icon_compare_key(icon: &[u8]) -> (r: Result<IconKey, LookupError>)
    ensures
        r is Ok <==> spec_icon_key(icon@) is Ok,
        r matches Ok(k) ==> spec_icon_key(icon@) == Ok::<(int, int, int), LookupError>(k.spec_tuple()),
        r matches Err(e) ==> spec_icon_key(icon@) == Err::<(int, int, int), LookupError>(e),
{
    if is_png(icon) {
        let hdr = match PngHeader::from_bytes(icon) {
            Ok(h) => h,
            Err(e) => {
                return Err(e);
            },
        };
        Ok(IconKey { width: hdr.width(), height: hdr.height(), bit_count: 64 })
    } else {
        let hdr = match BitmapInfoHeader::from_bytes(icon) {
            Ok(h) => h,
            Err(e) => {
                return Err(e);
            },
        };
        Ok(IconKey { width: hdr.width(), height: hdr.height(), bit_count: hdr.bit_count() })
    }
}

/// Compares two candidate keys, width first.
pub fn key_greater(a: &IconKey, b: &IconKey) -> (r: bool)
    ensures
        r == spec_key_gt(a.spec_tuple(), b.spec_tuple()),
{
    a.width > b.width || (a.width == b.width && (a.height > b.height || (a.height == b.height
        && a.bit_count > b.bit_count)))
}

/// The byte sequences a slice-level candidate list carries, errors kept
/// in place.
pub open spec fn blobs_of<'a>(icons: Seq<Result<&'a [u8], LookupError>>) -> Seq<
    Result<Seq<u8>, LookupError>,
> {
    Seq::new(
        icons.len(),
        |j: int|
            match icons[j] {
                Ok(b) => Ok(b@),
                Err(e) => Err(e),
            },
    )
}

/// The selection outcome over the candidates from position `i` on, with
/// `best` the earliest-seen maximal candidate so far.
pub open spec fn spec_select_from(
    icons: Seq<Result<Seq<u8>, LookupError>>,
    i: int,
    best: Seq<u8>,
) -> Result<Seq<u8>, LookupError>
    decreases icons.len() - i,
{
    if i < 0 || i >= icons.len() {
        Ok(best)
    } else {
        match icons[i] {
            Err(e) => Err(e),
            Ok(b) => match spec_icon_key(b) {
                Err(e) => Err(e),
                Ok(k) => if spec_key_gt(k, spec_icon_key(best)->Ok_0) {
                    spec_select_from(icons, i + 1, b)
                } else {
                    spec_select_from(icons, i + 1, best)
                },
            },
        }
    }
}

/// The winner of the whole candidate sequence: the first candidate seeds
/// the running maximum, later candidates replace it only when strictly
/// greater, an empty sequence finds no icon, and any candidate error wins
/// over everything.
pub open spec fn spec_best_icon(icons: Seq<Result<Seq<u8>, LookupError>>) -> Result<Seq<u8>, LookupError> {
    if icons.len() == 0 {
        Err(LookupError::NoIconFound)
    } else {
        match icons[0] {
            Err(e) => Err(e),
            Ok(b) => match spec_icon_key(b) {
                Err(e) => Err(e),
                Ok(_) => spec_select_from(icons, 1, b),
            },
        }
    }
}

/// Candidate `j` is present and its comparison key is readable.
pub open spec fn candidate_ok(icons: Seq<Result<Seq<u8>, LookupError>>, j: int) -> bool {
    icons[j] is Ok && spec_icon_key(icons[j]->Ok_0) is Ok
}

/// The comparison key of candidate `j`.
pub open spec fn candidate_key(icons: Seq<Result<Seq<u8>, LookupError>>, j: int) -> (int, int, int) {
    spec_icon_key(icons[j]->Ok_0)->Ok_0
}

/// An empty candidate sequence finds no icon.
pub proof fn lemma_best_icon_empty(icons: Seq<Result<Seq<u8>, LookupError>>)
    requires
        icons.len() == 0,
    ensures
        spec_best_icon(icons) == Err::<Seq<u8>, LookupError>(LookupError::NoIconFound),
{
}

/// The key order is total: two keys are strictly ordered one way or the
/// other, or equal.
pub proof fn lemma_key_order_total(a: (int, int, int), b: (int, int, int))
    ensures
        spec_key_gt(a, b) || spec_key_gt(b, a) || a == b,
        !(spec_key_gt(a, b) && spec_key_gt(b, a)),
        !spec_key_gt(a, a),
{
}

proof fn lemma_select_from_props(icons: Seq<Result<Seq<u8>, LookupError>>, i: int, best: Seq<u8>)
    requires
        0 <= i <= icons.len(),
        spec_icon_key(best) is Ok,
        spec_select_from(icons, i, best) is Ok,
    ensures
        ({
            let rb = spec_select_from(icons, i, best)->Ok_0;
            &&& spec_icon_key(rb) is Ok
            &&& forall|j: int| i <= j < icons.len() ==> #[trigger] candidate_ok(icons, j)
            &&& forall|j: int|
                i <= j < icons.len() ==> !spec_key_gt(
                    #[trigger] candidate_key(icons, j),
                    spec_icon_key(rb)->Ok_0,
                )
            &&& rb == best || spec_key_gt(spec_icon_key(rb)->Ok_0, spec_icon_key(best)->Ok_0)
            &&& rb == best || exists|m: int|
                {
                    &&& i <= m < icons.len()
                    &&& #[trigger] candidate_ok(icons, m)
                    &&& icons[m]->Ok_0 == rb
                    &&& forall|j: int|
                        i <= j < m ==> spec_key_gt(
                            spec_icon_key(rb)->Ok_0,
                            #[trigger] candidate_key(icons, j),
                        )
                }
        }),
    decreases icons.len() - i,
{
    if i >= icons.len() {
        // the selection is already finished: the result is `best` itself
    } else {
        let b = icons[i]->Ok_0;
        let ki = spec_icon_key(b)->Ok_0;
        let kbest = spec_icon_key(best)->Ok_0;
        let rb = spec_select_from(icons, i, best)->Ok_0;
        let krb = spec_icon_key(rb)->Ok_0;
        if spec_key_gt(ki, kbest) {
            lemma_select_from_props(icons, i + 1, b);
            assert(candidate_ok(icons, i));
            if rb == b {
                assert(candidate_key(icons, i) == krb);
                lemma_key_order_total(candidate_key(icons, i), krb);
                assert(exists|m: int|
                    {
                        &&& i <= m < icons.len()
                        &&& #[trigger] candidate_ok(icons, m)
                        &&& icons[m]->Ok_0 == rb
                        &&& forall|j: int|
                            i <= j < m ==> spec_key_gt(
                                spec_icon_key(rb)->Ok_0,
                                #[trigger] candidate_key(icons, j),
                            )
                    }) by {
                    assert(candidate_ok(icons, i) && icons[i]->Ok_0 == rb);
                }
            } else {
                // the recursion found a strictly better candidate past i
                assert(spec_key_gt(krb, ki));
                let m0 = choose|m: int|
                    {
                        &&& i + 1 <= m < icons.len()
                        &&& #[trigger] candidate_ok(icons, m)
                        &&& icons[m]->Ok_0 == rb
                        &&& forall|j: int|
                            i + 1 <= j < m ==> spec_key_gt(
                                spec_icon_key(rb)->Ok_0,
                                #[trigger] candidate_key(icons, j),
                            )
                    };
                assert(candidate_key(icons, i) == ki);
                assert(forall|j: int|
                    i <= j < m0 ==> spec_key_gt(
                        spec_icon_key(rb)->Ok_0,
                        #[trigger] candidate_key(icons, j),
                    ));
            }
            assert(!spec_key_gt(candidate_key(icons, i), krb)) by {
                lemma_key_order_total(ki, krb);
            }
        } else {
            lemma_select_from_props(icons, i + 1, best);
            assert(candidate_ok(icons, i));
            assert(!spec_key_gt(candidate_key(icons, i), krb)) by {
                lemma_key_order_total(ki, kbest);
                lemma_key_order_total(kbest, krb);
                lemma_key_order_total(ki, krb);
            }
            if rb != best {
                let m0 = choose|m: int|
                    {
                        &&& i + 1 <= m < icons.len()
                        &&& #[trigger] candidate_ok(icons, m)
                        &&& icons[m]->Ok_0 == rb
                        &&& forall|j: int|
                            i + 1 <= j < m ==> spec_key_gt(
                                spec_icon_key(rb)->Ok_0,
                                #[trigger] candidate_key(icons, j),
                            )
                    };
                assert(spec_key_gt(krb, candidate_key(icons, i))) by {
                    lemma_key_order_total(ki, kbest);
                    lemma_key_order_total(kbest, krb);
                    lemma_key_order_total(ki, krb);
                }
                assert(forall|j: int|
                    i <= j < m0 ==> spec_key_gt(
                        spec_icon_key(rb)->Ok_0,
                        #[trigger] candidate_key(icons, j),
                    ));
            }
        }
    }
}

/// Ties are resolved in favor of the earliest-seen maximal key: a
/// successful selection returns a candidate that no candidate outranks and
/// that strictly outranks every candidate stored before it.
pub proof fn lemma_best_icon_earliest_maximal(icons: Seq<Result<Seq<u8>, LookupError>>)
    requires
        spec_best_icon(icons) is Ok,
    ensures
        icons.len() > 0,
        forall|j: int| 0 <= j < icons.len() ==> #[trigger] candidate_ok(icons, j),
        exists|i: int|
            {
                &&& 0 <= i < icons.len()
                &&& #[trigger] candidate_ok(icons, i)
                &&& icons[i]->Ok_0 == spec_best_icon(icons)->Ok_0
                &&& forall|j: int|
                    0 <= j < icons.len() ==> !spec_key_gt(
                        #[trigger] candidate_key(icons, j),
                        candidate_key(icons, i),
                    )
                &&& forall|j: int|
                    0 <= j < i ==> spec_key_gt(
                        candidate_key(icons, i),
                        #[trigger] candidate_key(icons, j),
                    )
            },
{
    let first = icons[0]->Ok_0;
    let rb = spec_best_icon(icons)->Ok_0;
    lemma_select_from_props(icons, 1, first);
    assert(candidate_ok(icons, 0));
    let krb = spec_icon_key(rb)->Ok_0;
    if rb == first {
        assert({
            &&& 0 <= 0 < icons.len()
            &&& candidate_ok(icons, 0)
            &&& icons[0]->Ok_0 == rb
            &&& forall|j: int|
                0 <= j < icons.len() ==> !spec_key_gt(
                    #[trigger] candidate_key(icons, j),
                    candidate_key(icons, 0),
                )
            &&& forall|j: int|
                0 <= j < 0 ==> spec_key_gt(
                    candidate_key(icons, 0),
                    #[trigger] candidate_key(icons, j),
                )
        }) by {
            lemma_key_order_total(candidate_key(icons, 0), krb);
        }
    } else {
        let m0 = choose|m: int|
            {
                &&& 1 <= m < icons.len()
                &&& #[trigger] candidate_ok(icons, m)
                &&& icons[m]->Ok_0 == rb
                &&& forall|j: int|
                    1 <= j < m ==> spec_key_gt(
                        spec_icon_key(rb)->Ok_0,
                        #[trigger] candidate_key(icons, j),
                    )
            };
        assert({
            &&& 0 <= m0 < icons.len()
            &&& candidate_ok(icons, m0)
            &&& icons[m0]->Ok_0 == rb
            &&& forall|j: int|
                0 <= j < icons.len() ==> !spec_key_gt(
                    #[trigger] candidate_key(icons, j),
                    candidate_key(icons, m0),
                )
            &&& forall|j: int|
                0 <= j < m0 ==> spec_key_gt(
                    candidate_key(icons, m0),
                    #[trigger] candidate_key(icons, j),
                )
        }) by {
            assert(candidate_key(icons, m0) == krb);
            assert(spec_key_gt(krb, candidate_key(icons, 0)));
        }
    }
}

/// Picks the best candidate by one pass over the sequence; the result is
/// the selection outcome over the candidates' byte sequences.
pub fn best_icon<'a>(icons: &Vec<Result<&'a [u8], LookupError>>) -> (r: Result<
    &'a [u8],
    LookupError,
>)
    ensures
        ({
            let v = spec_best_icon(blobs_of(icons@));
            match r {
                Ok(b) => v == Ok::<Seq<u8>, LookupError>(b@),
                Err(e) => v == Err::<Seq<u8>, LookupError>(e),
            }
        }),
{
    let ghost blobs = blobs_of(icons@);
    if icons.len() == 0 {
        return Err(LookupError::NoIconFound);
    }
    let mut cur_max: &'a [u8] = match icons[0] {
        Ok(b) => b,
        Err(e) => {
            proof {
                assert(blobs[0] == Err::<Seq<u8>, LookupError>(e));
            }
            return Err(e);
        },
    };
    proof {
        assert(blobs[0] == Ok::<Seq<u8>, LookupError>(cur_max@));
    }
    let mut cur_key: IconKey = match icon_compare_key(cur_max) {
        Ok(k) => k,
        Err(e) => {
            return Err(e);
        },
    };
    let mut i: usize = 1;
    while i < icons.len()
        invariant
            1 <= i <= icons@.len(),
            blobs == blobs_of(icons@),
            spec_icon_key(cur_max@) == Ok::<(int, int, int), LookupError>(cur_key.spec_tuple()),
            spec_best_icon(blobs) == spec_select_from(blobs, i as int, cur_max@),
        decreases icons@.len() - i,
    {
        proof {
            assert(blobs[i as int] == (match icons@[i as int] {
                Ok(b) => Ok::<Seq<u8>, LookupError>(b@),
                Err(e) => Err::<Seq<u8>, LookupError>(e),
            }));
        }
        match icons[i] {
            Err(e) => {
                return Err(e);
            },
            Ok(b) => {
                match icon_compare_key(b) {
                    Err(e) => {
                        return Err(e);
                    },
                    Ok(k) => {
                        if key_greater(&k, &cur_key) {
                            cur_max = b;
                            cur_key = k;
                        }
                    },
                }
            },
        }
        i = i + 1;
    }
    Ok(cur_max)
}

/// A failed selection reports an error carried by some candidate, or
/// raised while reading some candidate's key.
proof fn lemma_select_from_err(
    icons: Seq<Result<Seq<u8>, LookupError>>,
    i: int,
    best: Seq<u8>,
)
    requires
        0 <= i <= icons.len(),
        spec_select_from(icons, i, best) is Err,
    ensures
        exists|j: int|
            i <= j < icons.len() && (icons[j] == Err::<Seq<u8>, LookupError>(
                spec_select_from(icons, i, best)->Err_0,
            ) || (#[trigger] icons[j] is Ok && spec_icon_key(icons[j]->Ok_0) == Err::<
                (int, int, int),
                LookupError,
            >(spec_select_from(icons, i, best)->Err_0))),
    decreases icons.len() - i,
{
    let e = spec_select_from(icons, i, best)->Err_0;
    if i >= icons.len() {
        // impossible: an exhausted selection succeeds
    } else {
        match icons[i] {
            Err(_) => {
                assert(icons[i] == Err::<Seq<u8>, LookupError>(e));
            },
            Ok(b) => {
                match spec_icon_key(b) {
                    Err(_) => {
                        assert(icons[i] is Ok && spec_icon_key(icons[i]->Ok_0) == Err::<
                            (int, int, int),
                            LookupError,
                        >(e));
                    },
                    Ok(k) => {
                        if spec_key_gt(k, spec_icon_key(best)->Ok_0) {
                            lemma_select_from_err(icons, i + 1, b);
                        } else {
                            lemma_select_from_err(icons, i + 1, best);
                        }
                    },
                }
            },
        }
    }
}

/// A failed selection reports that the candidate set was empty, an error
/// carried by some candidate, or an error raised while reading some
/// candidate's key — and a key error is always a malformed PNG or a
/// bounds violation.
pub proof fn lemma_best_icon_err(icons: Seq<Result<Seq<u8>, LookupError>>)
    requires
        spec_best_icon(icons) is Err,
    ensures
        ({
            let e = spec_best_icon(icons)->Err_0;
            ||| (icons.len() == 0 && e == LookupError::NoIconFound)
            ||| (exists|j: int|
                0 <= j < icons.len() && icons[j] == Err::<Seq<u8>, LookupError>(e))
            ||| (e == LookupError::MalformedPng || e == LookupError::FormatError)
        }),
{
    let e = spec_best_icon(icons)->Err_0;
    if icons.len() == 0 {
    } else {
        match icons[0] {
            Err(_) => {
                assert(icons[0] == Err::<Seq<u8>, LookupError>(e));
            },
            Ok(b) => {
                match spec_icon_key(b) {
                    Err(_) => {},
                    Ok(_) => {
                        lemma_select_from_err(icons, 1, b);
                        let j = choose|j: int|
                            1 <= j < icons.len() && (icons[j] == Err::<Seq<u8>, LookupError>(e)
                                || (#[trigger] icons[j] is Ok && spec_icon_key(icons[j]->Ok_0)
                                == Err::<(int, int, int), LookupError>(e)));
                        if icons[j] is Ok {
                            // a key error is one of the two reading failures
                        }
                    },
                }
            },
        }
    }
}

/// A PNG-signed buffer shorter than 24 bytes, or one without `"IHDR"` at
/// bytes 12 to 16, yields no comparison key: reading it fails as a
/// malformed PNG.
pub proof fn lemma_malformed_png_key(b: Seq<u8>)
    requires
        spec_is_png(b),
        !png_header_wf(b),
    ensures
        spec_icon_key(b) == Err::<(int, int, int), LookupError>(LookupError::MalformedPng),
{
}

/// The decoded result of a lookup: the winning PNG bytes passed through
/// untouched, or a decoded top-down RGBA pixel buffer with its dimensions.
#[derive(Debug)]
pub struct DecodedIcon {
    /// PNG bytes, or 4 bytes per pixel in red, green, blue, alpha order.
    pub pixels: Vec<u8>,
    /// Whether `pixels` is a PNG stream left for a downstream decoder.
    pub is_png: bool,
    /// Pixel width of the decoded bitmap; 0 for PNG pass-through.
    pub width: i32,
    /// Pixel height of the decoded bitmap; 0 for PNG pass-through.
    pub height: i32,
}

/// The returned icon `d` is what the winning candidate bytes `win`
/// decode to: a PNG-signed buffer passed through byte for byte with zero
/// dimensions, or the validated bitmap's top-down RGBA pixels with the
/// header's dimensions.
pub open spec fn decoded_matches(d: DecodedIcon, win: Seq<u8>) -> bool {
    if spec_is_png(win) {
        d.pixels@ == win && d.is_png && d.width == 0 && d.height == 0
    } else {
        &&& dib::dib_check(win) is Ok
        &&& !d.is_png
        &&& d.width == dib::dib_width(win)
        &&& d.height == dib::dib_true_height(win)
        &&& d.pixels@.len() == 4 * dib::dib_width(win) * dib::dib_true_height(win)
        &&& forall|x: int, y: int|
            0 <= x < dib::dib_width(win) && 0 <= y < dib::dib_true_height(win)
                ==> #[trigger] dib::pixel_matches(d.pixels@, win, x, y)
    }
}

/// Turns the winning candidate into the returned icon: a PNG-signed buffer
/// passes through byte for byte with zero dimensions, and a legacy bitmap
/// is validated and decoded, its header supplying the dimensions.
pub fn decode_icon(best: &[u8]) -> (r: Result<DecodedIcon, LookupError>)
    ensures
        match r {
            Ok(d) => decoded_matches(d, best@),
            Err(e) => !spec_is_png(best@) && dib::dib_check(best@) == Err::<(), LookupError>(e),
        },
{
    if is_png(best) {
        return Ok(
            DecodedIcon {
                pixels: vstd::slice::slice_to_vec(best),
                is_png: true,
                width: 0,
                height: 0,
            },
        );
    }
    let hdr = match BitmapInfoHeader::from_bytes(best) {
        Ok(h) => h,
        Err(e) => {
            return Err(e);
        },
    };
    let pixels = match dib::decode_dib(best) {
        Ok(p) => p,
        Err(e) => {
            return Err(e);
        },
    };
    let h = hdr.height();
    let true_h = ((h as u32) / 2) as i32;
    Ok(DecodedIcon { pixels, is_png: false, width: hdr.width(), height: true_h })
}

/// Candidate `j` of the group directory buffer `gb`: the bytes of the
/// icon image whose id entry `j` names, or the absent-id error.
pub open spec fn spec_candidate(
    res: pelite::resources::Resources,
    gb: Seq<u8>,
    j: int,
) -> Result<Seq<u8>, LookupError> {
    match crate::pe::resource_data(
        res,
        crate::pe::RT_ICON,
        spec_le16(spec_entry_bytes(gb, j), 12) as u32,
    ) {
        Some(b) => Ok(b),
        None => Err(LookupError::NoIconFound),
    }
}

/// All candidates the group directory lists, in stored order.
pub open spec fn spec_candidates(res: pelite::resources::Resources, gb: Seq<u8>) -> Seq<
    Result<Seq<u8>, LookupError>,
> {
    Seq::new(spec_le16(gb, 4) as nat, |j: int| spec_candidate(res, gb, j))
}

/// Looks the best icon up in an opened resource tree: walks to the
/// group-icon resource, validates it as a directory of variants, collects
/// each listed icon image, selects the best by its (width, height,
/// bit-depth) key, and decodes the winner. The outcome is fixed by what
/// the resources hold: no group-icon resource means no icon, a group of
/// the wrong length is a format error, and otherwise the result is the
/// decoded winner of the listed candidates, every selection or decoding
/// error passed through.
pub fn lookup_in_resources<'a>(res: &pelite::resources::Resources<'a>) -> (r: Result<
    DecodedIcon,
    LookupError,
>)
    ensures
        crate::pe::first_resource_data(*res, crate::pe::RT_GROUP_ICON) is None ==> r == Err::<
            DecodedIcon,
            LookupError,
        >(LookupError::NoIconFound),
        ({
            let gbo = crate::pe::first_resource_data(*res, crate::pe::RT_GROUP_ICON);
            gbo matches Some(gb) ==> {
                if !group_dir_wf(gb) {
                    r == Err::<DecodedIcon, LookupError>(LookupError::FormatError)
                } else {
                    match spec_best_icon(spec_candidates(*res, gb)) {
                        Err(e) => r == Err::<DecodedIcon, LookupError>(e),
                        Ok(win) => match r {
                            Ok(d) => decoded_matches(d, win),
                            Err(e) => !spec_is_png(win) && dib::dib_check(win) == Err::<
                                (),
                                LookupError,
                            >(e),
                        },
                    }
                }
            }
        }),
        r matches Ok(d) ==> {
            &&& (d.is_png ==> d.width == 0 && d.height == 0)
            &&& (!d.is_png ==> d.width >= 0 && d.height >= 0 && d.pixels@.len() == 4 * d.width
                * d.height)
        },
        r matches Err(e) ==> e != LookupError::IoFailure && e != LookupError::EncodingFailure,
{
    let group_bytes = match crate::pe::group_icon_bytes(res) {
        Ok(b) => b,
        Err(e) => {
            return Err(e);
        },
    };
    let ghost gb = group_bytes@;
    let dir = match IconGroupDirectory::from_bytes(group_bytes) {
        Some(d) => d,
        None => {
            return Err(LookupError::FormatError);
        },
    };
    let entries = dir.entries();
    let n = entries.len();
    let mut icons: Vec<Result<&[u8], LookupError>> = Vec::new();
    let mut i: usize = 0;
    while i < n
        invariant
            i <= n,
            dir.wf(),
            dir@ == gb,
            n == entries@.len(),
            n == dir.spec_num_entries(),
            forall|j: int| 0 <= j < entries@.len() ==> #[trigger] entry_matches(entries@, gb, j),
            icons@.len() == i,
            forall|j: int|
                0 <= j < i ==> #[trigger] blobs_of(icons@)[j] == spec_candidate(*res, gb, j),
            forall|j: int|
                0 <= j < icons@.len() ==> (#[trigger] icons@[j] matches Err(e) ==> e
                    == LookupError::NoIconFound),
        decreases n - i,
    {
        proof {
            assert(entry_matches(entries@, gb, i as int));
        }
        let id = entries[i].icon_id();
        let ghost prev = icons@;
        let img = crate::pe::icon_image(res, id);
        icons.push(img);
        proof {
            assert(icons@[i as int] == img);
            assert(id as u32 == spec_le16(spec_entry_bytes(gb, i as int), 12) as u32);
            assert forall|j: int| 0 <= j < i as int + 1 implies #[trigger] blobs_of(icons@)[j]
                == spec_candidate(*res, gb, j) by {
                if j < i as int {
                    assert(icons@[j] == prev[j]);
                    assert(blobs_of(prev)[j] == spec_candidate(*res, gb, j));
                }
            }
            assert forall|j: int|
                0 <= j < icons@.len() implies (#[trigger] icons@[j] matches Err(e) ==> e
                == LookupError::NoIconFound) by {
                if j < prev.len() {
                    assert(icons@[j] == prev[j]);
                }
            }
        }
        i = i + 1;
    }
    proof {
        assert(blobs_of(icons@) =~= spec_candidates(*res, gb));
    }
    let best = match best_icon(&icons) {
        Ok(b) => b,
        Err(e) => {
            proof {
                lemma_best_icon_err(blobs_of(icons@));
            }
            return Err(e);
        },
    };
    let d = match decode_icon(best) {
        Ok(d) => d,
        Err(e) => {
            return Err(e);
        },
    };
    proof {
        if !d.is_png {
            assert(dib::dib_check(best@) is Ok);
            vstd::arithmetic::mul::lemma_mul_is_associative(
                4,
                dib::dib_width(best@),
                dib::dib_true_height(best@),
            );
        }
    }
    Ok(d)
}

/// Looks the best icon up in the bytes of a PE file: parses the PE
/// headers, opens the resource tree, and hands it to the resource-level
/// lookup. Every failure along the way aborts the lookup with that
/// failure, and no failure of the byte pipeline is an input/output or
/// encoding error.
pub fn exelook(bytes: &[u8]) -> (r: Result<DecodedIcon, LookupError>)
    ensures
        r matches Ok(d) ==> {
            &&& (d.is_png ==> d.width == 0 && d.height == 0)
            &&& (!d.is_png ==> d.width >= 0 && d.height >= 0 && d.pixels@.len() == 4 * d.width
                * d.height)
        },
        r matches Err(e) ==> e != LookupError::IoFailure && e != LookupError::EncodingFailure,
{
    let res = match crate::pe::get_resources(bytes) {
        Ok(r) => r,
        Err(e) => {
            return Err(e);
        },
    };
    lookup_in_resources(&res)
}

} // verus!
