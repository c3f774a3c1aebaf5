use vstd::prelude::*;

verus! {

/// A path with every backslash replaced by a forward slash, so that archives
/// authored on either kind of platform unpack the same way.
pub open spec fn swap_separators(s: Seq<u8>) -> Seq<u8> {
    s.map(
        |i: int, b: u8|
            if b == 92 {
                47u8
            } else {
                b
            },
    )
}

/// A path with the parent-directory token `../` removed wherever it occurs,
/// scanning left to right without overlap. This is best-effort tidying of
/// paths that happen to carry the token, not a security boundary: the caller
/// must still confine every write to the output root.
pub open spec fn strip_parent_tokens(s: Seq<u8>) -> Seq<u8>
    decreases s.len(),
{
    if s.len() >= 3 && s[0] == 46 && s[1] == 46 && s[2] == 47 {
        strip_parent_tokens(s.skip(3))
    } else if s.len() == 0 {
        s
    } else {
        seq![s[0]] + strip_parent_tokens(s.skip(1))
    }
}

/// The sanitized form of a path: separators normalized, then parent-directory
/// tokens removed.
pub open spec fn spec_sanitize(s: Seq<u8>) -> Seq<u8> {
    strip_parent_tokens(swap_separators(s))
}

/// Normalize a path taken from the dictionary: replace backslashes with
/// forward slashes, then strip `../` occurrences left to right.
pub fn sanitize_path(p: &Vec<u8>) -> (r: Vec<u8>)
    ensures
        r@ == spec_sanitize(p@),
{
    let mut swapped: Vec<u8> = Vec::new();
    let mut i: usize = 0;
    while i < p.len()
        invariant
            i <= p@.len(),
            swapped@ == swap_separators(p@).take(i as int),
        decreases p@.len() - i,
    {
        let b = p[i];
        if b == 92 {
            swapped.push(47);
        } else {
            swapped.push(b);
        }
        proof {
            assert(swapped@ =~= swap_separators(p@).take(i + 1));
        }
        i += 1;
    }
    proof {
        assert(swap_separators(p@).take(p@.len() as int) =~= swap_separators(p@));
    }
    let n = swapped.len();
    let mut out: Vec<u8> = Vec::new();
    let mut j: usize = 0;
    while j < n
        invariant
            j <= n == swapped@.len(),
            strip_parent_tokens(swapped@) == out@ + strip_parent_tokens(
                swapped@.skip(j as int),
            ),
        decreases n - j,
    {
        let ghost tail = swapped@.skip(j as int);
        if n - j >= 3 && swapped[j] == 46 && swapped[j + 1] == 46 && swapped[j + 2] == 47 {
            proof {
                assert(tail[0] == 46 && tail[1] == 46 && tail[2] == 47);
                assert(tail.skip(3) =~= swapped@.skip(j + 3));
            }
            j += 3;
        } else {
            proof {
                if tail.len() >= 3 {
                    assert(tail[0] == swapped@[j as int]);
                    assert(tail[1] == swapped@[j + 1]);
                    assert(tail[2] == swapped@[j + 2]);
                }
                assert(tail.skip(1) =~= swapped@.skip(j + 1));
                assert(strip_parent_tokens(tail) == seq![swapped@[j as int]]
                    + strip_parent_tokens(swapped@.skip(j + 1)));
            }
            let ghost prev = out@;
            out.push(swapped[j]);
            proof {
                assert(prev + (seq![swapped@[j as int]] + strip_parent_tokens(
                    swapped@.skip(j + 1),
                )) =~= out@ + strip_parent_tokens(swapped@.skip(j + 1)));
            }
            j += 1;
        }
    }
    proof {
        assert(swapped@.skip(n as int) =~= Seq::<u8>::empty());
        assert(strip_parent_tokens(Seq::<u8>::empty()) =~= Seq::<u8>::empty());
        assert(out@ + Seq::<u8>::empty() =~= out@);
    }
    out
}

} // verus!
