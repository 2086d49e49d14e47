//! Byte-sequence scanning primitives shared by the request and response
//! codecs: first occurrence of a byte or of a two-byte pattern, subrange
//! extraction, and appending.

use vstd::prelude::*;

verus! {

/// A two-byte pattern `x y` stands at position `i` of `b`.
pub open spec fn pair_at(b: Seq<u8>, x: u8, y: u8, i: int) -> bool {
    &&& 0 <= i
    &&& i + 2 <= b.len()
    &&& b[i] == x
    &&& b[i + 1] == y
}

/// Position of the first occurrence of `x y` in `b` at or after `from`.
pub open spec fn find_pair_from(b: Seq<u8>, x: u8, y: u8, from: int) -> Option<int>
    decreases b.len() - from,
{
    if from < 0 {
        find_pair_from(b, x, y, 0)
    } else if from + 2 > b.len() {
        None
    } else if b[from] == x && b[from + 1] == y {
        Some(from)
    } else {
        find_pair_from(b, x, y, from + 1)
    }
}

/// Position of the first occurrence of `x` in `b` at or after `from`.
pub open spec fn find_byte_from(b: Seq<u8>, x: u8, from: int) -> Option<int>
    decreases b.len() - from,
{
    if from < 0 {
        find_byte_from(b, x, 0)
    } else if from + 1 > b.len() {
        None
    } else if b[from] == x {
        Some(from)
    } else {
        find_byte_from(b, x, from + 1)
    }
}

/// What `find_pair_from` returns: the first match, or nothing where no match
/// stands at or after `from`.
pub proof fn lemma_find_pair_from(b: Seq<u8>, x: u8, y: u8, from: int)
    requires
        0 <= from,
    ensures
        match find_pair_from(b, x, y, from) {
            Some(j) => pair_at(b, x, y, j) && from <= j && forall|k: int|
                from <= k < j ==> !pair_at(b, x, y, k),
            None => forall|k: int| from <= k ==> !pair_at(b, x, y, k),
        },
    decreases b.len() - from,
{
    if from + 2 > b.len() {
        assert forall|k: int| from <= k implies !pair_at(b, x, y, k) by {}
    } else if b[from] == x && b[from + 1] == y {
    } else {
        lemma_find_pair_from(b, x, y, from + 1);
    }
}

/// What `find_byte_from` returns, in the same shape.
pub proof fn lemma_find_byte_from(b: Seq<u8>, x: u8, from: int)
    requires
        0 <= from,
    ensures
        match find_byte_from(b, x, from) {
            Some(j) => from <= j && j < b.len() && b[j] == x && forall|k: int|
                from <= k < j ==> b[k] != x,
            None => forall|k: int| from <= k < b.len() ==> b[k] != x,
        },
    decreases b.len() - from,
{
    if from + 1 > b.len() {
    } else if b[from] == x {
    } else {
        lemma_find_byte_from(b, x, from + 1);
    }
}

/// The first match characterizes the function: useful in the other direction.
pub proof fn lemma_find_pair_from_is(b: Seq<u8>, x: u8, y: u8, from: int, j: int)
    requires
        0 <= from <= j,
        pair_at(b, x, y, j),
        forall|k: int| from <= k < j ==> !pair_at(b, x, y, k),
    ensures
        find_pair_from(b, x, y, from) == Some(j),
    decreases j - from,
{
    if from < j {
        assert(!pair_at(b, x, y, from));
        lemma_find_pair_from_is(b, x, y, from + 1, j);
    }
}

/// Absence of the pattern at or after `from` characterizes `None`.
pub proof fn lemma_find_pair_from_is_none(b: Seq<u8>, x: u8, y: u8, from: int)
    requires
        0 <= from,
        forall|k: int| from <= k ==> !pair_at(b, x, y, k),
    ensures
        find_pair_from(b, x, y, from) == None::<int>,
    decreases b.len() - from,
{
    if from + 2 <= b.len() {
        assert(!pair_at(b, x, y, from));
        lemma_find_pair_from_is_none(b, x, y, from + 1);
    }
}

/// Same, for one byte.
pub proof fn lemma_find_byte_from_is(b: Seq<u8>, x: u8, from: int, j: int)
    requires
        0 <= from <= j < b.len(),
        b[j] == x,
        forall|k: int| from <= k < j ==> b[k] != x,
    ensures
        find_byte_from(b, x, from) == Some(j),
    decreases j - from,
{
    if from < j {
        lemma_find_byte_from_is(b, x, from + 1, j);
    }
}

pub proof fn lemma_find_byte_from_is_none(b: Seq<u8>, x: u8, from: int)
    requires
        0 <= from,
        forall|k: int| from <= k < b.len() ==> b[k] != x,
    ensures
        find_byte_from(b, x, from) == None::<int>,
    decreases b.len() - from,
{
    if from + 1 <= b.len() {
        lemma_find_byte_from_is_none(b, x, from + 1);
    }
}

/// First occurrence of `x y` in `b` at or after `from`, executable.
pub fn find_pair(b: &Vec<u8>, x: u8, y: u8, from: usize) -> (r: Option<usize>)
    ensures
        match r {
            Some(j) => find_pair_from(b@, x, y, from as int) == Some(j as int),
            None => find_pair_from(b@, x, y, from as int) == None::<int>,
        },
{
    let mut i = from;
    loop
        invariant
            from <= i,
            forall|k: int| from <= k < i ==> !pair_at(b@, x, y, k),
        decreases b@.len() + 2 - i,
    {
        if i >= b.len() || i + 1 >= b.len() {
            proof {
                lemma_find_pair_from_is_none(b@, x, y, from as int);
            }
            return None;
        }
        if b[i] == x && b[i + 1] == y {
            proof {
                lemma_find_pair_from_is(b@, x, y, from as int, i as int);
            }
            return Some(i);
        }
        i = i + 1;
    }
}

/// First occurrence of `x` in `b` at or after `from`, executable.
pub fn find_byte(b: &Vec<u8>, x: u8, from: usize) -> (r: Option<usize>)
    ensures
        match r {
            Some(j) => find_byte_from(b@, x, from as int) == Some(j as int),
            None => find_byte_from(b@, x, from as int) == None::<int>,
        },
{
    let mut i = from;
    loop
        invariant
            from <= i,
            forall|k: int| from <= k < i ==> b@[k] != x,
        decreases b@.len() + 1 - i,
    {
        if i >= b.len() {
            proof {
                lemma_find_byte_from_is_none(b@, x, from as int);
            }
            return None;
        }
        if b[i] == x {
            proof {
                lemma_find_byte_from_is(b@, x, from as int, i as int);
            }
            return Some(i);
        }
        i = i + 1;
    }
}

/// Copy of `b[i..j]` as an owned vector.
pub fn sub_vec(b: &Vec<u8>, i: usize, j: usize) -> (r: Vec<u8>)
    requires
        i <= j <= b@.len(),
    ensures
        r@ == b@.subrange(i as int, j as int),
{
    let mut out: Vec<u8> = Vec::new();
    let mut k = i;
    while k < j
        invariant
            i <= k <= j <= b@.len(),
            out@ == b@.subrange(i as int, k as int),
        decreases j - k,
    {
        out.push(b[k]);
        proof {
            assert(out@ =~= b@.subrange(i as int, k + 1 as int));
        }
        k = k + 1;
    }
    out
}

/// An owned copy of `b`.
pub fn copy_bytes(b: &Vec<u8>) -> (r: Vec<u8>)
    ensures
        r@ == b@,
{
    let r = sub_vec(b, 0, b.len());
    proof {
        assert(b@.subrange(0, b@.len() as int) =~= b@);
    }
    r
}

/// Append all of `s` to `out`.
pub fn append_bytes(out: &mut Vec<u8>, s: &Vec<u8>)
    ensures
        final(out)@ == old(out)@ + s@,
{
    let mut k: usize = 0;
    while k < s.len()
        invariant
            k <= s@.len(),
            out@ == old(out)@ + s@.subrange(0, k as int),
        decreases s@.len() - k,
    {
        out.push(s[k]);
        proof {
            assert(out@ =~= old(out)@ + s@.subrange(0, k + 1 as int));
        }
        k = k + 1;
    }
    proof {
        assert(out@ =~= old(out)@ + s@);
    }
}

/// Byte-sequence equality, decided element by element.
pub fn bytes_eq(a: &Vec<u8>, b: &Vec<u8>) -> (r: bool)
    ensures
        r == (a@ == b@),
{
    let r = a == b;
    proof {
        if r {
            assert(a@ =~= b@);
        }
        if a@ == b@ {
            assert(forall|i: int| 0 <= i < a@.len() ==> a@[i] == b@[i]);
        }
    }
    r
}

/// `pre` is a prefix of `b`.
pub open spec fn is_prefix_of(pre: Seq<u8>, b: Seq<u8>) -> bool {
    pre.len() <= b.len() && b.subrange(0, pre.len() as int) == pre
}

/// Decide whether `pre` is a prefix of `b`.
pub fn starts_with(b: &Vec<u8>, pre: &Vec<u8>) -> (r: bool)
    ensures
        r == is_prefix_of(pre@, b@),
{
    if pre.len() > b.len() {
        return false;
    }
    let head = sub_vec(b, 0, pre.len());
    bytes_eq(&head, pre)
}

} // verus!
