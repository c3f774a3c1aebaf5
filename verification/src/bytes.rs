use vstd::prelude::*;

verus! {

/// The fixed 16-byte sentinel, `<nexe~~sentinel>` in ASCII, whose last
/// occurrence in the binary image anchors the footer.
pub open spec fn sentinel_seq() -> Seq<u8> {
    seq![60u8, 110u8, 101u8, 120u8, 101u8, 126u8, 126u8, 115u8, 101u8, 110u8, 116u8, 105u8, 110u8, 101u8, 108u8, 62u8]
}

/// The fixed 32-byte marker token, `!(function () {process.__nexe = ` in
/// ASCII, that immediately precedes the JSON dictionary inside the content
/// section.
pub open spec fn marker_seq() -> Seq<u8> {
    seq![33u8, 40u8, 102u8, 117u8, 110u8, 99u8, 116u8, 105u8, 111u8, 110u8, 32u8, 40u8, 41u8, 32u8, 123u8, 112u8, 114u8, 111u8, 99u8, 101u8, 115u8, 115u8, 46u8, 95u8, 95u8, 110u8, 101u8, 120u8, 101u8, 32u8, 61u8, 32u8]
}

/// The entry field name `start_offset` in ASCII.
pub open spec fn start_offset_name() -> Seq<u8> {
    seq![115u8, 116u8, 97u8, 114u8, 116u8, 95u8, 111u8, 102u8, 102u8, 115u8, 101u8, 116u8]
}

/// The entry field name `end_offset` in ASCII.
pub open spec fn end_offset_name() -> Seq<u8> {
    seq![101u8, 110u8, 100u8, 95u8, 111u8, 102u8, 102u8, 115u8, 101u8, 116u8]
}

/// The category key `resources` in ASCII.
pub open spec fn resources_name() -> Seq<u8> {
    seq![114u8, 101u8, 115u8, 111u8, 117u8, 114u8, 99u8, 101u8, 115u8]
}

/// The sentinel as a byte vector.
pub fn sentinel_bytes() -> (v: Vec<u8>)
    ensures
        v@ == sentinel_seq(),
{
    let v: Vec<u8> = vec![60u8, 110u8, 101u8, 120u8, 101u8, 126u8, 126u8, 115u8, 101u8, 110u8, 116u8, 105u8, 110u8, 101u8, 108u8, 62u8];
    proof {
        assert(v@ =~= sentinel_seq());
    }
    v
}

/// The marker token as a byte vector.
pub fn marker_bytes() -> (v: Vec<u8>)
    ensures
        v@ == marker_seq(),
{
    let v: Vec<u8> = vec![33u8, 40u8, 102u8, 117u8, 110u8, 99u8, 116u8, 105u8, 111u8, 110u8, 32u8, 40u8, 41u8, 32u8, 123u8, 112u8, 114u8, 111u8, 99u8, 101u8, 115u8, 115u8, 46u8, 95u8, 95u8, 110u8, 101u8, 120u8, 101u8, 32u8, 61u8, 32u8];
    proof {
        assert(v@ =~= marker_seq());
    }
    v
}

/// The field name `start_offset` as a byte vector.
pub fn start_offset_bytes() -> (v: Vec<u8>)
    ensures
        v@ == start_offset_name(),
{
    let v: Vec<u8> = vec![115u8, 116u8, 97u8, 114u8, 116u8, 95u8, 111u8, 102u8, 102u8, 115u8, 101u8, 116u8];
    proof {
        assert(v@ =~= start_offset_name());
    }
    v
}

/// The field name `end_offset` as a byte vector.
pub fn end_offset_bytes() -> (v: Vec<u8>)
    ensures
        v@ == end_offset_name(),
{
    let v: Vec<u8> = vec![101u8, 110u8, 100u8, 95u8, 111u8, 102u8, 102u8, 115u8, 101u8, 116u8];
    proof {
        assert(v@ =~= end_offset_name());
    }
    v
}

/// The category key `resources` as a byte vector.
pub fn resources_bytes() -> (v: Vec<u8>)
    ensures
        v@ == resources_name(),
{
    let v: Vec<u8> = vec![114u8, 101u8, 115u8, 111u8, 117u8, 114u8, 99u8, 101u8, 115u8];
    proof {
        assert(v@ =~= resources_name());
    }
    v
}

/// Whether two byte vectors hold the same bytes.
pub fn bytes_eq(a: &Vec<u8>, b: &Vec<u8>) -> (r: bool)
    ensures
        r <==> a@ == b@,
{
    if a.len() != b.len() {
        proof {
            assert(a@.len() != b@.len());
        }
        return false;
    }
    let mut i: usize = 0;
    while i < a.len()
        invariant
            i <= a.len(),
            a@.len() == b@.len(),
            forall|j: int| 0 <= j < i ==> a@[j] == b@[j],
        decreases a.len() - i,
    {
        if a[i] != b[i] {
            return false;
        }
        i += 1;
    }
    proof {
        assert(a@ =~= b@);
    }
    true
}

/// A copy of the bytes of `src` in the range `[start, end)`.
pub fn copy_range(src: &Vec<u8>, start: usize, end: usize) -> (v: Vec<u8>)
    requires
        start <= end <= src@.len(),
    ensures
        v@ == src@.subrange(start as int, end as int),
{
    let mut v: Vec<u8> = Vec::new();
    let mut i: usize = start;
    while i < end
        invariant
            start <= i <= end <= src@.len(),
            v@ == src@.subrange(start as int, i as int),
        decreases end - i,
    {
        v.push(src[i]);
        proof {
            assert(v@ =~= src@.subrange(start as int, i + 1 as int));
        }
        i += 1;
    }
    v
}

} // verus!
