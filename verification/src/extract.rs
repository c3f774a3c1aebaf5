use vstd::prelude::*;
use crate::bytes::{sentinel_seq, marker_seq, sentinel_bytes, marker_bytes, copy_range};
use crate::dict::{Offsets, parse_dictionary, spec_parse_dictionary, entries_view};
use crate::errors::UnpackError;
use crate::ledouble::{le_double_trunc, get_float_from_buf};
use crate::paths::{spec_sanitize, sanitize_path};
use crate::search::{occurs_at, spec_rfind, spec_find, rfind_bytes, find_bytes, lemma_rfind_characterization, lemma_find_characterization};

verus! {

/// The boundaries of the two sections carved out of a binary image, derived
/// from the footer. The resource section starts at
/// `content_start + content_size` and ends at `sentinel_offset`.
#[derive(Clone, Copy, Debug, PartialEq, Eq, Structural)]
pub struct Sections {
    /// Offset of the first byte of the sentinel's last occurrence.
    pub sentinel_offset: usize,
    /// Offset of the first byte of the content section.
    pub content_start: usize,
    /// Size in bytes of the content section.
    pub content_size: usize,
    /// Size in bytes of the resource section.
    pub resource_size: usize,
}

/// The section boundaries encoded in a binary image: the last occurrence of
/// the sentinel anchors the footer, the 16 bytes after the sentinel hold the
/// two section sizes as little-endian doubles, and the sections lie
/// immediately before the sentinel. Absent sentinel, truncated size fields
/// and sizes that exceed the space before the sentinel are each rejected.
pub open spec fn spec_sections(b: Seq<u8>) -> Result<Sections, UnpackError> {
    match spec_rfind(b, sentinel_seq()) {
        None => Err(UnpackError::MissingSentinel),
        Some(sent) => {
            if sent + 32 > b.len() {
                Err(UnpackError::TruncatedMetadata)
            } else {
                let cs = le_double_trunc(b.subrange(sent + 16, sent + 24));
                let rs = le_double_trunc(b.subrange(sent + 24, sent + 32));
                if cs + rs > sent {
                    Err(UnpackError::SectionBounds)
                } else {
                    Ok(
                        Sections {
                            sentinel_offset: sent,
                            content_start: (sent - rs - cs) as usize,
                            content_size: cs as usize,
                            resource_size: rs as usize,
                        },
                    )
                }
            }
        },
    }
}

/// Find the last occurrence of the sentinel in the binary image.
pub fn locate_sentinel(binary: &Vec<u8>) -> (r: Option<usize>)
    ensures
        r == spec_rfind(binary@, sentinel_seq()),
{
    let needle = sentinel_bytes();
    rfind_bytes(binary, &needle)
}

/// Decode the footer of a binary image into section boundaries. On success
/// the boundaries satisfy
/// `content_start + content_size + resource_size == sentinel_offset`
/// and the whole footer lies within the image.
#[verifier::rlimit(60)]
pub fn decode_sections(binary: &Vec<u8>) -> (r: Result<Sections, UnpackError>)
    ensures
        r == spec_sections(binary@),
        r is Ok ==> {
            let sec = r->Ok_0;
            &&& sec.content_start + sec.content_size + sec.resource_size == sec.sentinel_offset
            &&& sec.sentinel_offset + 32 <= binary@.len()
            &&& occurs_at(binary@, sentinel_seq(), sec.sentinel_offset as int)
        },
{
    let blen = binary.len();
    let sent = match locate_sentinel(binary) {
        None => {
            return Err(UnpackError::MissingSentinel);
        },
        Some(s) => s,
    };
    proof {
        assert(binary@.len() == blen);
        lemma_rfind_characterization(binary@, sentinel_seq());
    }
    if binary.len() - sent < 32 {
        return Err(UnpackError::TruncatedMetadata);
    }
    let cs = match get_float_from_buf(binary, sent + 16) {
        Ok(v) => v,
        Err(e) => {
            return Err(e);
        },
    };
    let rs = match get_float_from_buf(binary, sent + 24) {
        Ok(v) => v,
        Err(e) => {
            return Err(e);
        },
    };
    if cs > sent as u64 || rs > (sent as u64) - cs {
        return Err(UnpackError::SectionBounds);
    }
    Ok(
        Sections {
            sentinel_offset: sent,
            content_start: sent - (rs as usize) - (cs as usize),
            content_size: cs as usize,
            resource_size: rs as usize,
        },
    )
}

/// Copy one entry's bytes out of the resource section. The range is checked
/// against the section explicitly: a range that does not fit is rejected and
/// nothing is read.
pub fn slice_entry(resource: &Vec<u8>, off: &Offsets) -> (r: Result<Vec<u8>, UnpackError>)
    ensures
        off.start_offset + off.end_offset <= resource@.len() ==> r is Ok && r->Ok_0@
            == resource@.subrange(
            off.start_offset as int,
            off.start_offset + off.end_offset,
        ),
        off.start_offset + off.end_offset > resource@.len() ==> r == Err::<Vec<u8>, UnpackError>(
            UnpackError::EntryOutOfRange,
        ),
{
    let len64 = resource.len() as u64;
    if off.start_offset > len64 || off.end_offset > len64 - off.start_offset {
        return Err(UnpackError::EntryOutOfRange);
    }
    let start = off.start_offset as usize;
    let end = (off.start_offset + off.end_offset) as usize;
    Ok(copy_range(resource, start, end))
}

/// The extraction of the dictionary entries from index `i` on: each entry's
/// sanitized path with its bytes of the resource section, in dictionary
/// order; the first entry whose range does not fit the resource section
/// aborts the extraction.
pub open spec fn extract_from(
    resource: Seq<u8>,
    d: Seq<(Seq<u8>, Offsets)>,
    i: int,
) -> Result<Seq<(Seq<u8>, Seq<u8>)>, UnpackError>
    decreases d.len() - i when 0 <= i <= d.len()
{
    if i == d.len() {
        Ok(Seq::empty())
    } else {
        let o = d[i].1;
        if o.start_offset + o.end_offset > resource.len() {
            Err(UnpackError::EntryOutOfRange)
        } else {
            match extract_from(resource, d, i + 1) {
                Err(e) => Err(e),
                Ok(rest) => Ok(
                    seq![
                        (
                            spec_sanitize(d[i].0),
                            resource.subrange(
                                o.start_offset as int,
                                o.start_offset + o.end_offset,
                            ),
                        ),
                    ] + rest,
                ),
            }
        }
    }
}

/// What a whole run returns: for a valid packaged executable, the sanitized
/// path and payload bytes of every entry of the `resources` dictionary, in
/// insertion order; otherwise the error of the first stage that rejects the
/// image.
pub open spec fn spec_unpack(b: Seq<u8>) -> Result<Seq<(Seq<u8>, Seq<u8>)>, UnpackError> {
    match spec_sections(b) {
        Err(e) => Err(e),
        Ok(sec) => {
            let content = b.subrange(
                sec.content_start as int,
                sec.content_start + sec.content_size,
            );
            match spec_find(content, marker_seq()) {
                None => Err(UnpackError::MissingMarker),
                Some(m) => {
                    let json = content.skip(m + 32);
                    match spec_parse_dictionary(json) {
                        Err(e) => Err(e),
                        Ok(dict) => {
                            let resource = b.subrange(
                                sec.content_start + sec.content_size,
                                sec.content_start + sec.content_size + sec.resource_size,
                            );
                            extract_from(resource, dict, 0)
                        },
                    }
                },
            }
        },
    }
}

/// The paths and payloads held in an extraction plan, as sequences.
pub open spec fn plan_view(v: Seq<(Vec<u8>, Vec<u8>)>) -> Seq<(Seq<u8>, Seq<u8>)> {
    v.map(|i: int, p: (Vec<u8>, Vec<u8>)| (p.0@, p.1@))
}

/// `plan_view`, lifted over a result.
pub open spec fn plan_result_view(r: Result<Vec<(Vec<u8>, Vec<u8>)>, UnpackError>) -> Result<
    Seq<(Seq<u8>, Seq<u8>)>,
    UnpackError,
> {
    match r {
        Ok(v) => Ok(plan_view(v@)),
        Err(e) => Err(e),
    }
}

/// Run the whole pipeline on a binary image: locate the footer, decode the
/// section boundaries, parse the resource dictionary out of the content
/// section, and copy out each entry's bytes under its sanitized path, in
/// dictionary order. Nothing is written anywhere: the caller decides what to
/// do with the returned pairs.
#[verifier::rlimit(60)]
pub fn unpack(binary: &Vec<u8>) -> (r: Result<Vec<(Vec<u8>, Vec<u8>)>, UnpackError>)
    ensures
        plan_result_view(r) == spec_unpack(binary@),
{
    let sec = match decode_sections(binary) {
        Err(e) => {
            return Err(e);
        },
        Ok(s) => s,
    };
    let resource_start = sec.content_start + sec.content_size;
    let content = copy_range(binary, sec.content_start, resource_start);
    let marker = marker_bytes();
    let m = match find_bytes(&content, &marker) {
        None => {
            return Err(UnpackError::MissingMarker);
        },
        Some(m) => m,
    };
    proof {
        lemma_find_characterization(content@, marker_seq());
    }
    let json = copy_range(&content, m + 32, content.len());
    proof {
        assert(json@ =~= content@.skip(m + 32));
    }
    let dict = match parse_dictionary(&json) {
        Err(e) => {
            return Err(e);
        },
        Ok(d) => d,
    };
    let resource = copy_range(binary, resource_start, resource_start + sec.resource_size);
    let ghost dv = entries_view(dict@);
    proof {
        assert(spec_unpack(binary@) == extract_from(resource@, dv, 0));
    }
    let mut out: Vec<(Vec<u8>, Vec<u8>)> = Vec::new();
    let mut i: usize = 0;
    while i < dict.len()
        invariant
            i <= dict@.len(),
            dv == entries_view(dict@),
            dv.len() == dict@.len(),
            resource@.len() == sec.resource_size,
            spec_unpack(binary@) == extract_from(resource@, dv, 0),
            match extract_from(resource@, dv, i as int) {
                Ok(rest) => extract_from(resource@, dv, 0) == Ok::<_, UnpackError>(
                    plan_view(out@) + rest,
                ),
                Err(e) => extract_from(resource@, dv, 0) == Err::<Seq<(Seq<u8>, Seq<u8>)>, _>(e),
            },
        decreases dict@.len() - i,
    {
        let pair = &dict[i];
        proof {
            assert(dv[i as int] == (pair.0@, pair.1));
        }
        let payload = match slice_entry(&resource, &pair.1) {
            Err(e) => {
                return Err(e);
            },
            Ok(p) => p,
        };
        let san = sanitize_path(&pair.0);
        let ghost prev = out@;
        out.push((san, payload));
        proof {
            assert(plan_view(out@) =~= plan_view(prev) + seq![
                (spec_sanitize(dv[i as int].0), resource@.subrange(
                    dv[i as int].1.start_offset as int,
                    dv[i as int].1.start_offset + dv[i as int].1.end_offset,
                )),
            ]);
            if extract_from(resource@, dv, i + 1) is Ok {
                let rest2 = extract_from(resource@, dv, i + 1)->Ok_0;
                assert(plan_view(prev) + (seq![
                    (spec_sanitize(dv[i as int].0), resource@.subrange(
                        dv[i as int].1.start_offset as int,
                        dv[i as int].1.start_offset + dv[i as int].1.end_offset,
                    )),
                ] + rest2) =~= plan_view(out@) + rest2);
            }
        }
        i += 1;
    }
    proof {
        assert(plan_view(out@) + Seq::<(Seq<u8>, Seq<u8>)>::empty() =~= plan_view(out@));
    }
    Ok(out)
}

/// Section arithmetic: whenever a binary image decodes to section
/// boundaries, `content_start + content_size + resource_size` equals the
/// sentinel offset, and the whole footer lies within the image.
pub proof fn lemma_section_arithmetic(b: Seq<u8>)
    ensures
        spec_sections(b) is Ok ==> {
            let sec = spec_sections(b)->Ok_0;
            &&& sec.content_start + sec.content_size + sec.resource_size == sec.sentinel_offset
            &&& sec.sentinel_offset + 32 <= b.len()
        },
{
}

/// Every entry of a successful extraction lies inside the resource section:
/// extraction from index `i` on succeeds only when each remaining entry's
/// byte range fits, and each extracted payload is exactly that range, under
/// the entry's sanitized path.
pub proof fn lemma_extracted_entries_in_bounds(
    resource: Seq<u8>,
    d: Seq<(Seq<u8>, Offsets)>,
    out: Seq<(Seq<u8>, Seq<u8>)>,
    i: int,
)
    requires
        0 <= i <= d.len(),
        extract_from(resource, d, i) == Ok::<Seq<(Seq<u8>, Seq<u8>)>, UnpackError>(out),
    ensures
        out.len() == d.len() - i,
        forall|k: int|
            0 <= k < out.len() ==> #[trigger] d[i + k].1.start_offset + d[i + k].1.end_offset
                <= resource.len(),
        forall|k: int|
            0 <= k < out.len() ==> #[trigger] out[k] == (
                spec_sanitize(d[i + k].0),
                resource.subrange(
                    d[i + k].1.start_offset as int,
                    d[i + k].1.start_offset + d[i + k].1.end_offset,
                ),
            ),
    decreases d.len() - i,
{
    if i == d.len() {
        assert(extract_from(resource, d, i) == Ok::<Seq<(Seq<u8>, Seq<u8>)>, UnpackError>(
            Seq::empty(),
        ));
        assert(out.len() == 0);
    } else {
        let rest = extract_from(resource, d, i + 1)->Ok_0;
        lemma_extracted_entries_in_bounds(resource, d, rest, i + 1);
        let o0 = d[i].1;
        let hd = (
            spec_sanitize(d[i].0),
            resource.subrange(o0.start_offset as int, o0.start_offset + o0.end_offset),
        );
        assert(out == seq![hd] + rest);
        assert forall|k: int| 0 <= k < out.len() implies #[trigger] d[i + k].1.start_offset + d[
            i + k
        ].1.end_offset <= resource.len() by {
            if k > 0 {
                assert(rest[k - 1] == rest[k - 1]);
            }
        }
        assert forall|k: int| 0 <= k < out.len() implies #[trigger] out[k] == (
            spec_sanitize(d[i + k].0),
            resource.subrange(
                d[i + k].1.start_offset as int,
                d[i + k].1.start_offset + d[i + k].1.end_offset,
            ),
        ) by {
            if k == 0 {
                assert(out[0] == hd);
            } else {
                assert(out[k] == rest[k - 1]);
            }
        }
    }
}

/// When every remaining entry's byte range fits the resource section,
/// extraction succeeds and yields one pair per entry, in dictionary order.
pub proof fn lemma_extract_total(resource: Seq<u8>, d: Seq<(Seq<u8>, Offsets)>, i: int)
    requires
        0 <= i <= d.len(),
        forall|k: int|
            i <= k < d.len() ==> d[k].1.start_offset + d[k].1.end_offset <= resource.len(),
    ensures
        extract_from(resource, d, i) == Ok::<Seq<(Seq<u8>, Seq<u8>)>, UnpackError>(
            Seq::new(
                (d.len() - i) as nat,
                |k: int|
                    (
                        spec_sanitize(d[i + k].0),
                        resource.subrange(
                            d[i + k].1.start_offset as int,
                            d[i + k].1.start_offset + d[i + k].1.end_offset,
                        ),
                    ),
            ),
        ),
    decreases d.len() - i,
{
    let whole = Seq::new(
        (d.len() - i) as nat,
        |k: int|
            (
                spec_sanitize(d[i + k].0),
                resource.subrange(
                    d[i + k].1.start_offset as int,
                    d[i + k].1.start_offset + d[i + k].1.end_offset,
                ),
            ),
    );
    if i == d.len() {
        assert(whole =~= Seq::<(Seq<u8>, Seq<u8>)>::empty());
    } else {
        lemma_extract_total(resource, d, i + 1);
        let o = d[i].1;
        let rest = extract_from(resource, d, i + 1)->Ok_0;
        let joined = seq![
            (
                spec_sanitize(d[i].0),
                resource.subrange(o.start_offset as int, o.start_offset + o.end_offset),
            ),
        ] + rest;
        assert forall|k: int| 0 <= k < whole.len() implies #[trigger] joined[k] == whole[k] by {
            if k > 0 {
                assert(joined[k] == rest[k - 1]);
                assert(rest[k - 1] == (
                    spec_sanitize(d[i + k].0),
                    resource.subrange(
                        d[i + k].1.start_offset as int,
                        d[i + k].1.start_offset + d[i + k].1.end_offset,
                    ),
                ));
            }
        }
        assert(joined =~= whole);
    }
}

/// Overlap between entries is legal: a two-entry dictionary whose byte
/// ranges both fit the resource section extracts both entries, each to its
/// own byte range, whether or not the two ranges overlap.
pub proof fn lemma_overlapping_entries_extract(resource: Seq<u8>, d: Seq<(Seq<u8>, Offsets)>)
    requires
        d.len() == 2,
        d[0].1.start_offset + d[0].1.end_offset <= resource.len(),
        d[1].1.start_offset + d[1].1.end_offset <= resource.len(),
    ensures
        extract_from(resource, d, 0) == Ok::<Seq<(Seq<u8>, Seq<u8>)>, UnpackError>(
            seq![
                (
                    spec_sanitize(d[0].0),
                    resource.subrange(
                        d[0].1.start_offset as int,
                        d[0].1.start_offset + d[0].1.end_offset,
                    ),
                ),
                (
                    spec_sanitize(d[1].0),
                    resource.subrange(
                        d[1].1.start_offset as int,
                        d[1].1.start_offset + d[1].1.end_offset,
                    ),
                ),
            ],
        ),
{
    lemma_extract_total(resource, d, 0);
    let got = extract_from(resource, d, 0)->Ok_0;
    assert(got =~= seq![
        (
            spec_sanitize(d[0].0),
            resource.subrange(d[0].1.start_offset as int, d[0].1.start_offset + d[0].1.end_offset),
        ),
        (
            spec_sanitize(d[1].0),
            resource.subrange(d[1].1.start_offset as int, d[1].1.start_offset + d[1].1.end_offset),
        ),
    ]);
}

/// A last occurrence determines `spec_rfind`: if the needle occurs at `i`
/// and nowhere later, then `spec_rfind` returns `i`.
pub proof fn lemma_rfind_of_last_occurrence(h: Seq<u8>, n: Seq<u8>, i: usize)
    requires
        h.len() <= usize::MAX,
        occurs_at(h, n, i as int),
        forall|j: int| j > i ==> !occurs_at(h, n, j),
    ensures
        spec_rfind(h, n) == Some(i),
{
    lemma_rfind_characterization(h, n);
    match spec_rfind(h, n) {
        None => {
            assert(false);
        },
        Some(i2) => {
            if i2 < i {
                assert(occurs_at(h, n, i as int) && i > i2);
                assert(false);
            }
            if i2 > i {
                assert(false);
            }
        },
    }
}


/// Round trip: a synthetic image laid out as
/// `content ++ resource ++ sentinel ++ size1 ++ size2`, where the two size
/// fields decode to the lengths of the two sections, the sentinel occurs
/// nowhere after the end of the resource bytes, the content carries the
/// marker, the bytes after the marker carry a dictionary, and every entry's
/// byte range fits the resource bytes, unpacks to exactly
/// `resource[start_offset .. start_offset + length]` for every declared
/// entry, in dictionary order, under the entry's sanitized path.
pub proof fn lemma_round_trip(
    content: Seq<u8>,
    resource: Seq<u8>,
    size1: Seq<u8>,
    size2: Seq<u8>,
    m: usize,
    dict: Seq<(Seq<u8>, Offsets)>,
)
    requires
        size1.len() == 8,
        size2.len() == 8,
        le_double_trunc(size1) == content.len(),
        le_double_trunc(size2) == resource.len(),
        content.len() + resource.len() + 32 <= usize::MAX,
        forall|j: int|
            j > content.len() + resource.len() ==> !occurs_at(
                content + resource + sentinel_seq() + size1 + size2,
                sentinel_seq(),
                j,
            ),
        spec_find(content, marker_seq()) == Some(m),
        spec_parse_dictionary(content.skip(m + 32)) == Ok::<Seq<(Seq<u8>, Offsets)>, UnpackError>(
            dict,
        ),
        forall|k: int|
            0 <= k < dict.len() ==> #[trigger] dict[k].1.start_offset + dict[k].1.end_offset
                <= resource.len(),
    ensures
        spec_unpack(content + resource + sentinel_seq() + size1 + size2) == Ok::<
            Seq<(Seq<u8>, Seq<u8>)>,
            UnpackError,
        >(
            Seq::new(
                dict.len(),
                |k: int|
                    (
                        spec_sanitize(dict[k].0),
                        resource.subrange(
                            dict[k].1.start_offset as int,
                            dict[k].1.start_offset + dict[k].1.end_offset,
                        ),
                    ),
            ),
        ),
{
    let b = content + resource + sentinel_seq() + size1 + size2;
    let cl = content.len() as int;
    let rl = resource.len() as int;
    let sent = cl + rl;
    assert(b.len() == sent + 32);
    assert(b.subrange(sent, sent + 16) =~= sentinel_seq());
    assert(occurs_at(b, sentinel_seq(), sent));
    lemma_rfind_of_last_occurrence(b, sentinel_seq(), (cl + rl) as usize);
    assert(b.subrange(sent + 16, sent + 24) =~= size1);
    assert(b.subrange(sent + 24, sent + 32) =~= size2);
    assert(spec_sections(b) == Ok::<Sections, UnpackError>(
        Sections {
            sentinel_offset: (cl + rl) as usize,
            content_start: 0,
            content_size: content.len() as usize,
            resource_size: resource.len() as usize,
        },
    ));
    assert(b.subrange(0, cl) =~= content);
    assert(b.subrange(cl, cl + rl) =~= resource);
    lemma_extract_total(resource, dict, 0);
    let got = extract_from(resource, dict, 0)->Ok_0;
    let whole = Seq::new(
        dict.len(),
        |k: int|
            (
                spec_sanitize(dict[k].0),
                resource.subrange(
                    dict[k].1.start_offset as int,
                    dict[k].1.start_offset + dict[k].1.end_offset,
                ),
            ),
    );
    assert(got =~= whole);
    assert(spec_unpack(b) == Ok::<Seq<(Seq<u8>, Seq<u8>)>, UnpackError>(whole));
}


/// A binary image in which the sentinel occurs nowhere is rejected as
/// missing its sentinel, before anything else is read.
pub proof fn lemma_missing_sentinel_rejected(b: Seq<u8>)
    requires
        b.len() <= usize::MAX,
        forall|j: int| !occurs_at(b, sentinel_seq(), j),
    ensures
        spec_unpack(b) == Err::<Seq<(Seq<u8>, Seq<u8>)>, UnpackError>(UnpackError::MissingSentinel),
{
    lemma_rfind_characterization(b, sentinel_seq());
    if spec_rfind(b, sentinel_seq()) is Some {
        let i = spec_rfind(b, sentinel_seq())->0;
        assert(occurs_at(b, sentinel_seq(), i as int));
        assert(false);
    }
}

/// A binary image truncated to fewer than 16 bytes after its sentinel is
/// rejected as truncated metadata: the two size fields cannot be read.
pub proof fn lemma_truncated_metadata_rejected(b: Seq<u8>, i: usize)
    requires
        spec_rfind(b, sentinel_seq()) == Some(i),
        b.len() < i + 32,
    ensures
        spec_unpack(b) == Err::<Seq<(Seq<u8>, Seq<u8>)>, UnpackError>(
            UnpackError::TruncatedMetadata,
        ),
{
}

/// An empty resource dictionary extracts nothing, and successfully so.
pub proof fn lemma_empty_dictionary_extracts_nothing(resource: Seq<u8>)
    ensures
        extract_from(resource, Seq::empty(), 0) == Ok::<Seq<(Seq<u8>, Seq<u8>)>, UnpackError>(
            Seq::empty(),
        ),
{
}

} // verus!
