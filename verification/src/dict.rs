use vstd::prelude::*;
use vstd::slice::slice_to_vec;
use crate::bytes::{start_offset_name, end_offset_name, resources_name, start_offset_bytes, end_offset_bytes, resources_bytes, bytes_eq};
use crate::errors::UnpackError;
use crate::jsonraw::{RawFields, RawEntries, RawCats, json_head_of, parse_json_head};

verus! {

/// One dictionary entry's offset pair. The second field is named as an end
/// offset in the packaged format but is used as a length added to
/// `start_offset`, never as an absolute end position; that observed meaning
/// is kept here.
#[derive(Clone, Copy, Debug, PartialEq, Eq, Structural)]
pub struct Offsets {
    /// Position of the entry's first byte, relative to the start of the
    /// resource section.
    pub start_offset: u64,
    /// Number of bytes in the entry.
    pub end_offset: u64,
}

/// The value of the last field of `fs` named `name`: None when no field has
/// that name, Some of the field's value otherwise. A later field of the same
/// name shadows an earlier one, as it does in the decoded JSON object.
pub open spec fn field_lookup(fs: Seq<(Vec<u8>, Option<u64>)>, name: Seq<u8>) -> Option<
    Option<u64>,
>
    decreases fs.len(),
{
    if fs.len() == 0 {
        None
    } else if fs.last().0@ == name {
        Some(fs.last().1)
    } else {
        field_lookup(fs.drop_last(), name)
    }
}

/// The offset pair of one entry object: its `start_offset` and `end_offset`
/// fields, each of which must be present and a non-negative integer.
pub open spec fn entry_offsets(fs: RawFields) -> Result<Offsets, UnpackError> {
    match field_lookup(fs@, start_offset_name()) {
        Some(Some(s)) => match field_lookup(fs@, end_offset_name()) {
            Some(Some(e)) => Ok(Offsets { start_offset: s, end_offset: e }),
            _ => Err(UnpackError::InvalidDictionary),
        },
        _ => Err(UnpackError::InvalidDictionary),
    }
}

/// The members of one category from index `i` on, projected to paths and
/// offset pairs; the first member that is not an object, or whose offsets are
/// missing or not non-negative integers, rejects the dictionary.
pub open spec fn project_entries_from(es: Seq<(Vec<u8>, Option<RawFields>)>, i: int) -> Result<
    Seq<(Seq<u8>, Offsets)>,
    UnpackError,
>
    decreases es.len() - i when 0 <= i <= es.len()
{
    if i == es.len() {
        Ok(Seq::empty())
    } else {
        match es[i].1 {
            None => Err(UnpackError::InvalidDictionary),
            Some(fs) => match entry_offsets(fs) {
                Err(e) => Err(e),
                Ok(o) => match project_entries_from(es, i + 1) {
                    Err(e) => Err(e),
                    Ok(rest) => Ok(seq![(es[i].0@, o)] + rest),
                },
            },
        }
    }
}

/// A projected category: each member's path with its offset pair, in
/// insertion order.
pub open spec fn project_entries(es: RawEntries) -> Result<Seq<(Seq<u8>, Offsets)>, UnpackError> {
    project_entries_from(es@, 0)
}

/// The projection of the categories from index `i` on: every category must be
/// an object of valid entries, and the result carries the projection of the
/// first category named `resources`, when one exists.
pub open spec fn project_cats_from(cs: Seq<(Vec<u8>, Option<RawEntries>)>, i: int) -> Result<
    Option<Seq<(Seq<u8>, Offsets)>>,
    UnpackError,
>
    decreases cs.len() - i when 0 <= i <= cs.len()
{
    if i == cs.len() {
        Ok(None)
    } else {
        match cs[i].1 {
            None => Err(UnpackError::InvalidDictionary),
            Some(es) => match project_entries(es) {
                Err(e) => Err(e),
                Ok(ens) => match project_cats_from(cs, i + 1) {
                    Err(e) => Err(e),
                    Ok(rest) => Ok(
                        if cs[i].0@ == resources_name() {
                            Some(ens)
                        } else {
                            rest
                        },
                    ),
                },
            },
        }
    }
}

/// The resource dictionary carried by the first JSON value of a byte
/// sequence: the projection of its `resources` category. Rejected are a byte
/// sequence with no complete JSON value, a value that is not an object, a
/// member that does not fit the two-level dictionary shape, and a dictionary
/// with no `resources` category.
pub open spec fn spec_parse_dictionary(j: Seq<u8>) -> Result<
    Seq<(Seq<u8>, Offsets)>,
    UnpackError,
> {
    match json_head_of(j) {
        None => Err(UnpackError::MalformedJson),
        Some(None) => Err(UnpackError::InvalidDictionary),
        Some(Some(cs)) => match project_cats_from(cs@, 0) {
            Err(e) => Err(e),
            Ok(None) => Err(UnpackError::MissingResources),
            Ok(Some(res)) => Ok(res),
        },
    }
}

/// The paths and offset pairs held in an entry vector, as sequences.
pub open spec fn entries_view(v: Seq<(Vec<u8>, Offsets)>) -> Seq<(Seq<u8>, Offsets)> {
    v.map(|i: int, p: (Vec<u8>, Offsets)| (p.0@, p.1))
}

/// `entries_view`, lifted over a result.
pub open spec fn entries_result_view(r: Result<Vec<(Vec<u8>, Offsets)>, UnpackError>) -> Result<
    Seq<(Seq<u8>, Offsets)>,
    UnpackError,
> {
    match r {
        Ok(v) => Ok(entries_view(v@)),
        Err(e) => Err(e),
    }
}

/// The offset pair of one entry object, by a single forward scan in which a
/// later field of a given name shadows an earlier one.
fn entry_offsets_exec(fs: &RawFields) -> (r: Result<Offsets, UnpackError>)
    ensures
        r == entry_offsets(*fs),
{
    let start_name = start_offset_bytes();
    let end_name = end_offset_bytes();
    let mut s: Option<Option<u64>> = None;
    let mut e: Option<Option<u64>> = None;
    let mut i: usize = 0;
    while i < fs.len()
        invariant
            i <= fs@.len(),
            start_name@ == start_offset_name(),
            end_name@ == end_offset_name(),
            s == field_lookup(fs@.take(i as int), start_offset_name()),
            e == field_lookup(fs@.take(i as int), end_offset_name()),
        decreases fs@.len() - i,
    {
        let pair = &fs[i];
        proof {
            assert(fs@.take(i + 1).drop_last() =~= fs@.take(i as int));
            assert(fs@.take(i + 1).last() == fs@[i as int]);
        }
        if bytes_eq(&pair.0, &start_name) {
            s = Some(pair.1);
        }
        if bytes_eq(&pair.0, &end_name) {
            e = Some(pair.1);
        }
        i += 1;
    }
    proof {
        assert(fs@.take(fs@.len() as int) =~= fs@);
    }
    match s {
        Some(Some(sv)) => match e {
            Some(Some(ev)) => Ok(Offsets { start_offset: sv, end_offset: ev }),
            _ => Err(UnpackError::InvalidDictionary),
        },
        _ => Err(UnpackError::InvalidDictionary),
    }
}

/// The projection of one category's members to paths and offset pairs.
fn project_entries_exec(es: &RawEntries) -> (r: Result<Vec<(Vec<u8>, Offsets)>, UnpackError>)
    ensures
        entries_result_view(r) == project_entries(*es),
{
    let mut out: Vec<(Vec<u8>, Offsets)> = Vec::new();
    let mut i: usize = 0;
    while i < es.len()
        invariant
            i <= es@.len(),
            match project_entries_from(es@, i as int) {
                Ok(rest) => project_entries_from(es@, 0) == Ok::<_, UnpackError>(
                    entries_view(out@) + rest,
                ),
                Err(e) => project_entries_from(es@, 0) == Err::<Seq<(Seq<u8>, Offsets)>, _>(e),
            },
        decreases es@.len() - i,
    {
        let pair = &es[i];
        match &pair.1 {
            None => {
                return Err(UnpackError::InvalidDictionary);
            },
            Some(fs) => {
                match entry_offsets_exec(fs) {
                    Err(e) => {
                        return Err(e);
                    },
                    Ok(o) => {
                        let key: Vec<u8> = slice_to_vec(pair.0.as_slice());
                        let ghost prev = out@;
                        out.push((key, o));
                        proof {
                            assert(entries_view(out@) =~= entries_view(prev) + seq![
                                (es@[i as int].0@, o),
                            ]);
                            if project_entries_from(es@, i + 1) is Ok {
                                let rest2 = project_entries_from(es@, i + 1)->Ok_0;
                                assert(entries_view(prev) + (seq![(es@[i as int].0@, o)] + rest2)
                                    =~= entries_view(out@) + rest2);
                            }
                        }
                    },
                }
            },
        }
        i += 1;
    }
    proof {
        assert(entries_view(out@) + Seq::<(Seq<u8>, Offsets)>::empty() =~= entries_view(out@));
    }
    Ok(out)
}

/// The projection of the whole top-level object: every category is validated
/// and the first one named `resources` is kept.
fn project_cats_exec(cs: &RawCats) -> (r: Result<Option<Vec<(Vec<u8>, Offsets)>>, UnpackError>)
    ensures
        match r {
            Ok(None) => project_cats_from(cs@, 0) == Ok::<Option<Seq<(Seq<u8>, Offsets)>>, UnpackError>(None),
            Ok(Some(v)) => project_cats_from(cs@, 0) == Ok::<Option<Seq<(Seq<u8>, Offsets)>>, UnpackError>(
                Some(entries_view(v@)),
            ),
            Err(e) => project_cats_from(cs@, 0) == Err::<Option<Seq<(Seq<u8>, Offsets)>>, UnpackError>(e),
        },
{
    let res_name = resources_bytes();
    let mut found: Option<Vec<(Vec<u8>, Offsets)>> = None;
    let mut i: usize = 0;
    while i < cs.len()
        invariant
            i <= cs@.len(),
            res_name@ == resources_name(),
            match project_cats_from(cs@, i as int) {
                Ok(rest) => project_cats_from(cs@, 0) == Ok::<_, UnpackError>(
                    match found {
                        Some(v) => Some(entries_view(v@)),
                        None => rest,
                    },
                ),
                Err(e) => project_cats_from(cs@, 0) == Err::<Option<Seq<(Seq<u8>, Offsets)>>, _>(
                    e,
                ),
            },
        decreases cs@.len() - i,
    {
        let pair = &cs[i];
        match &pair.1 {
            None => {
                return Err(UnpackError::InvalidDictionary);
            },
            Some(es) => {
                match project_entries_exec(es) {
                    Err(e) => {
                        return Err(e);
                    },
                    Ok(ens) => {
                        if found.is_none() && bytes_eq(&pair.0, &res_name) {
                            found = Some(ens);
                        }
                    },
                }
            },
        }
        i += 1;
    }
    Ok(found)
}

/// Decode the resource dictionary from the bytes that follow the marker: the
/// first complete JSON value must be an object whose members are objects of
/// entries, each entry an object whose `start_offset` and `end_offset` fields
/// are non-negative integers; the members of the first category named
/// `resources` are returned in insertion order.
pub fn parse_dictionary(json: &Vec<u8>) -> (r: Result<Vec<(Vec<u8>, Offsets)>, UnpackError>)
    ensures
        entries_result_view(r) == spec_parse_dictionary(json@),
{
    match parse_json_head(json) {
        None => Err(UnpackError::MalformedJson),
        Some(None) => Err(UnpackError::InvalidDictionary),
        Some(Some(cats)) => match project_cats_exec(&cats) {
            Err(e) => Err(e),
            Ok(None) => Err(UnpackError::MissingResources),
            Ok(Some(res)) => Ok(res),
        },
    }
}

} // verus!
