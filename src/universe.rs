use vstd::prelude::*;

use crate::color::{RGB, gamma_correct, gamma_spec};
use crate::zone::{Zone, padding, splice_null_pixels, spliced};

verus! {

/// The most color bytes that one universe carries: 170 pixels.
pub const UNIVERSE_SIZE: usize = 510;

/// The most pixels that one render can number with 16-bit universe ids.
pub const MAX_PIXELS: usize = 11140950;

/// The three bytes that a pixel puts on the wire, gamma-corrected.
pub open spec fn pixel_bytes(p: RGB) -> Seq<u8> {
    let g = gamma_spec(p);
    seq![g.red, g.green, g.blue]
}

/// The byte stream of a pixel sequence: three gamma-corrected bytes per pixel.
pub open spec fn stream_of(pixels: Seq<RGB>) -> Seq<u8>
    decreases pixels.len(),
{
    if pixels.len() == 0 {
        Seq::empty()
    } else {
        stream_of(pixels.drop_last()) + pixel_bytes(pixels.last())
    }
}

/// A byte stream cut into universes: full ones of 510 bytes while more than 510
/// remain, then the rest (one empty universe for an empty stream).
pub open spec fn chunks_of(b: Seq<u8>) -> Seq<Seq<u8>>
    decreases b.len(),
{
    if b.len() <= UNIVERSE_SIZE {
        seq![b]
    } else {
        seq![b.take(UNIVERSE_SIZE as int)] + chunks_of(b.skip(UNIVERSE_SIZE as int))
    }
}

pub open spec fn views(us: Seq<Vec<u8>>) -> Seq<Seq<u8>> {
    us.map_values(|u: Vec<u8>| u@)
}

/// One universe of a render: its 1-based id and its color bytes.
#[derive(Debug)]
pub struct Universe {
    pub id: u16,
    pub data: Vec<u8>,
}

/// The universes of a render: the chunks of the spliced pixels' byte stream,
/// numbered from 1 in order.
pub open spec fn rendered(lights: Seq<RGB>, zones: Seq<Zone>) -> Seq<(u16, Seq<u8>)> {
    let cs = chunks_of(stream_of(spliced(lights, zones)));
    Seq::new(cs.len(), |i: int| ((i + 1) as u16, cs[i]))
}

pub open spec fn universe_views(us: Seq<Universe>) -> Seq<(u16, Seq<u8>)> {
    us.map_values(|u: Universe| (u.id, u.data@))
}

pub proof fn lemma_stream_len(pixels: Seq<RGB>)
    ensures
        stream_of(pixels).len() == 3 * pixels.len(),
    decreases pixels.len(),
{
    if pixels.len() > 0 {
        lemma_stream_len(pixels.drop_last());
    }
}

/// Every universe but the last is full, none exceeds 510 bytes, there is at
/// least one, and they put the stream back together in order.
pub proof fn lemma_chunk_shape(b: Seq<u8>)
    ensures
        chunks_of(b).len() >= 1,
        forall|i: int| 0 <= i < chunks_of(b).len() ==> #[trigger] chunks_of(b)[i].len() <= UNIVERSE_SIZE,
        forall|i: int| 0 <= i < chunks_of(b).len() - 1 ==> #[trigger] chunks_of(b)[i].len() == UNIVERSE_SIZE,
        b.len() > 0 ==> chunks_of(b).last().len() > 0,
        chunks_of(b).len() == if b.len() == 0 { 1 } else { (b.len() + UNIVERSE_SIZE - 1) / UNIVERSE_SIZE as int },
        chunks_of(b).flatten() == b,
    decreases b.len(),
{
    reveal_with_fuel(Seq::flatten, 2);
    if b.len() > UNIVERSE_SIZE {
        let rest = b.skip(UNIVERSE_SIZE as int);
        lemma_chunk_shape(rest);
        let cs = chunks_of(b);
        assert(cs == seq![b.take(UNIVERSE_SIZE as int)] + chunks_of(rest));
        assert forall|i: int| 0 <= i < cs.len() implies #[trigger] cs[i].len() <= UNIVERSE_SIZE by {
            if i > 0 {
                assert(cs[i] == chunks_of(rest)[i - 1]);
            }
        }
        assert forall|i: int| 0 <= i < cs.len() - 1 implies #[trigger] cs[i].len() == UNIVERSE_SIZE by {
            if i > 0 {
                assert(cs[i] == chunks_of(rest)[i - 1]);
            }
        }
        assert(cs.drop_first() == chunks_of(rest));
        assert(b.take(UNIVERSE_SIZE as int) + rest =~= b);
    } else {
        assert(seq![b].flatten() =~= b);
    }
}

/// Gamma-corrects each pixel into three bytes and cuts the stream into
/// universes of at most 510 bytes.
pub fn chunk(pixels: &[RGB]) -> (r: Vec<Vec<u8>>)
    requires
        3 * pixels@.len() <= usize::MAX,
    ensures
        views(r@) == chunks_of(stream_of(pixels@)),
{
    let mut out: Vec<u8> = Vec::new();
    let mut i: usize = 0;
    while i < pixels.len()
        invariant
            i <= pixels@.len(),
            3 * pixels@.len() <= usize::MAX,
            out@ == stream_of(pixels@.take(i as int)),
            out@.len() == 3 * i,
        decreases pixels@.len() - i,
    {
        let gc = gamma_correct(&pixels[i]);
        out.push(gc.red);
        out.push(gc.green);
        out.push(gc.blue);
        assert(pixels@.take(i + 1).drop_last() =~= pixels@.take(i as int));
        assert(out@ =~= stream_of(pixels@.take(i + 1)));
        i = i + 1;
    }
    assert(pixels@.take(i as int) =~= pixels@);
    let ghost full = out@;
    let mut universes: Vec<Vec<u8>> = Vec::new();
    assert(views(universes@) + chunks_of(out@) =~= chunks_of(full));
    while out.len() > UNIVERSE_SIZE
        invariant
            views(universes@) + chunks_of(out@) == chunks_of(full),
        decreases out@.len(),
    {
        let ghost before = out@;
        let u = out.split_off(UNIVERSE_SIZE);
        assert(out@ =~= before.take(UNIVERSE_SIZE as int));
        assert(u@ =~= before.skip(UNIVERSE_SIZE as int));
        let ghost old_universes = universes@;
        universes.push(out);
        assert(views(universes@) =~= views(old_universes).push(before.take(UNIVERSE_SIZE as int)));
        assert(views(universes@) + chunks_of(u@) =~= views(old_universes) + chunks_of(before));
        out = u;
    }
    let ghost old_universes = universes@;
    let ghost last = out@;
    universes.push(out);
    assert(views(universes@) =~= views(old_universes).push(last));
    assert(views(universes@) =~= views(old_universes) + chunks_of(last));
    universes
}

/// Splices the zones' filler pixels into `lights`, gamma-corrects and chunks
/// the bytes, and numbers the universes from 1 in order.
pub fn render(lights: &[RGB], zones: &[Zone]) -> (r: Vec<Universe>)
    requires
        lights@.len() + 765 * zones@.len() <= usize::MAX,
        lights@.len() + padding(zones@) <= MAX_PIXELS,
    ensures
        universe_views(r@) == rendered(lights@, zones@),
{
    let spliced_pixels = splice_null_pixels(lights, zones);
    let mut chunks = chunk(spliced_pixels.as_slice());
    let ghost cs = chunks_of(stream_of(spliced(lights@, zones@)));
    proof {
        lemma_stream_len(spliced(lights@, zones@));
        lemma_chunk_shape(stream_of(spliced(lights@, zones@)));
    }
    let ghost n = cs.len();
    assert(rendered(lights@, zones@).len() == n);
    let mut universes: Vec<Universe> = Vec::new();
    let mut k: usize = 0;
    while chunks.len() > 0
        invariant
            n == cs.len(),
            n <= 65535,
            rendered(lights@, zones@).len() == n,
            forall|j: int| 0 <= j < n ==> #[trigger] rendered(lights@, zones@)[j] == ((j + 1) as u16, cs[j]),
            k + chunks@.len() == n,
            universes@.len() == k,
            views(chunks@) == cs.skip(k as int),
            universe_views(universes@) == rendered(lights@, zones@).take(k as int),
        decreases chunks@.len(),
    {
        let ghost before = chunks@;
        let data = chunks.remove(0);
        assert(data@ == cs[k as int]) by {
            assert(views(before)[0] == cs.skip(k as int)[0]);
        }
        assert(views(chunks@) =~= cs.skip(k + 1)) by {
            assert(chunks@ =~= before.drop_first());
            assert forall|j: int| 0 <= j < chunks@.len() implies views(chunks@)[j] == cs.skip(k + 1)[j] by {
                assert(views(before)[j + 1] == cs.skip(k as int)[j + 1]);
            }
        }
        let ghost old_universes = universes@;
        universes.push(Universe { id: (k + 1) as u16, data });
        proof {
            let rs = rendered(lights@, zones@);
            assert(universes@ == old_universes.push(Universe { id: (k + 1) as u16, data }));
            assert forall|j: int| 0 <= j <= k implies universe_views(universes@)[j] == rs[j] by {
                if j < k {
                    assert(universes@[j] == old_universes[j]);
                    assert(universe_views(old_universes)[j] == rs.take(k as int)[j]);
                }
            }
            assert(universe_views(universes@) =~= rs.take(k + 1));
        }
        k = k + 1;
    }
    assert(rendered(lights@, zones@).take(k as int) =~= rendered(lights@, zones@));
    universes
}

/// Rendering is repeatable: two renders of the same lights and zones give the
/// same universes, with the same ids and byte for byte the same data.
pub proof fn lemma_render_repeatable(
    lights: Seq<RGB>,
    zones: Seq<Zone>,
    first: Seq<Universe>,
    second: Seq<Universe>,
)
    requires
        universe_views(first) == rendered(lights, zones),
        universe_views(second) == rendered(lights, zones),
    ensures
        first.len() == second.len(),
        forall|i: int| 0 <= i < first.len() ==> #[trigger] first[i].id == second[i].id && first[i].data@ == second[i].data@,
{
    assert(universe_views(first).len() == first.len());
    assert(universe_views(second).len() == second.len());
    assert forall|i: int| 0 <= i < first.len() implies #[trigger] first[i].id == second[i].id && first[i].data@ == second[i].data@ by {
        assert(universe_views(first)[i] == (first[i].id, first[i].data@));
        assert(universe_views(second)[i] == (second[i].id, second[i].data@));
    }
}

} // verus!
