use vstd::prelude::*;

use crate::color::RGB;

verus! {

/// A named run of pixels on a fixture, with `head` unlit filler pixels before
/// its `body` visible pixels and `tail` filler pixels after them.
#[derive(Clone, Debug)]
pub struct Zone {
    pub head: u8,
    pub body: u8,
    pub tail: u8,
    pub name: String,
}

/// `n` null pixels.
pub open spec fn nulls(n: nat) -> Seq<RGB> {
    Seq::new(n, |i: int| RGB::black())
}

/// `s` with `n` null pixels inserted at `at`, or appended where `at` lies past
/// its end.
pub open spec fn insert_nulls(s: Seq<RGB>, at: int, n: nat) -> Seq<RGB> {
    let p = if at < s.len() { at } else { s.len() as int };
    s.take(p) + nulls(n) + s.skip(p)
}

/// Walks `zones` from cursor `idx` over `s`: each zone inserts its head fillers
/// at the cursor, moves the cursor over head and body, inserts its tail fillers
/// there and moves the cursor over them.
pub open spec fn splice_from(s: Seq<RGB>, idx: int, zones: Seq<Zone>) -> Seq<RGB>
    decreases zones.len(),
{
    if zones.len() == 0 {
        s
    } else {
        let z = zones[0];
        let at_tail = idx + z.head + z.body;
        let s1 = insert_nulls(insert_nulls(s, idx, z.head as nat), at_tail, z.tail as nat);
        splice_from(s1, at_tail + z.tail, zones.skip(1))
    }
}

/// The pixel sequence with each zone's filler pixels in place.
pub open spec fn spliced(lights: Seq<RGB>, zones: Seq<Zone>) -> Seq<RGB> {
    splice_from(lights, 0, zones)
}

/// The number of filler pixels that the zones call for.
pub open spec fn padding(zones: Seq<Zone>) -> int
    decreases zones.len(),
{
    if zones.len() == 0 {
        0
    } else {
        zones[0].head + zones[0].tail + padding(zones.skip(1))
    }
}

/// The spliced sequence holds the lights and one filler per head and tail slot.
pub proof fn lemma_splice_len(s: Seq<RGB>, idx: int, zones: Seq<Zone>)
    requires
        idx >= 0,
    ensures
        splice_from(s, idx, zones).len() == s.len() + padding(zones),
    decreases zones.len(),
{
    if zones.len() > 0 {
        let z = zones[0];
        let at_tail = idx + z.head + z.body;
        let s0 = insert_nulls(s, idx, z.head as nat);
        let s1 = insert_nulls(s0, at_tail, z.tail as nat);
        assert(s0.len() == s.len() + z.head);
        assert(s1.len() == s0.len() + z.tail);
        lemma_splice_len(s1, at_tail + z.tail, zones.skip(1));
    }
}

/// Inserts `n` null pixels at `at`, or at the end where `at` lies past it.
fn insert_null_pixels(v: &mut Vec<RGB>, at: usize, n: u8)
    requires
        old(v).len() + n <= usize::MAX,
    ensures
        final(v)@ == insert_nulls(old(v)@, at as int, n as nat),
{
    let ghost s = v@;
    let p = if at < v.len() { at } else { v.len() };
    let mut j: u8 = 0;
    assert(v@ =~= s.take(p as int) + nulls(0) + s.skip(p as int));
    while j < n
        invariant
            p <= s.len(),
            j <= n,
            s.len() + n <= usize::MAX,
            v@ == s.take(p as int) + nulls(j as nat) + s.skip(p as int),
        decreases n - j,
    {
        v.insert(p, RGB::null());
        assert(v@ =~= s.take(p as int) + nulls((j + 1) as nat) + s.skip(p as int));
        j = j + 1;
    }
}

/// Copies `lights` and inserts each zone's head and tail filler pixels, walking
/// a cursor through the growing sequence; a zone reaching past the end appends.
pub fn splice_null_pixels(lights: &[RGB], zones: &[Zone]) -> (r: Vec<RGB>)
    requires
        lights@.len() + 765 * zones@.len() <= usize::MAX,
    ensures
        r@ == spliced(lights@, zones@),
        r@.len() == lights@.len() + padding(zones@),
{
    let mut copy: Vec<RGB> = Vec::new();
    let mut i: usize = 0;
    while i < lights.len()
        invariant
            i <= lights@.len(),
            copy@ == lights@.take(i as int),
        decreases lights@.len() - i,
    {
        copy.push(lights[i]);
        assert(copy@ =~= lights@.take(i + 1));
        i = i + 1;
    }
    assert(lights@.take(lights@.len() as int) =~= lights@);
    assert(zones@.skip(0) =~= zones@);
    let mut idx: usize = 0;
    let mut k: usize = 0;
    while k < zones.len()
        invariant
            k <= zones@.len(),
            lights@.len() + 765 * zones@.len() <= usize::MAX,
            copy@.len() <= lights@.len() + 510 * k,
            idx <= 765 * k,
            splice_from(copy@, idx as int, zones@.skip(k as int)) == spliced(lights@, zones@),
        decreases zones@.len() - k,
    {
        let z = &zones[k];
        let ghost rest = zones@.skip(k as int);
        assert(rest[0] == zones@[k as int]);
        assert(rest.skip(1) =~= zones@.skip(k + 1));
        insert_null_pixels(&mut copy, idx, z.head);
        idx = idx + z.head as usize + z.body as usize;
        insert_null_pixels(&mut copy, idx, z.tail);
        idx = idx + z.tail as usize;
        k = k + 1;
    }
    assert(zones@.skip(k as int).len() == 0);
    proof {
        lemma_splice_len(lights@, 0, zones@);
    }
    copy
}

} // verus!
