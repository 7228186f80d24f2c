//! Textures kept for reuse between frames of the same shape.
use std::collections::HashMap;
use vstd::prelude::*;
use crate::libplacebo::gpu::Texture;

verus! {

broadcast use vstd::std_specs::hash::group_hash_axioms;

/// The shape of a decoded frame: its size and pixel format (`AVPixelFormat`).
#[derive(Debug, Clone, Copy, PartialEq, Eq, Structural)]
pub struct FrameProps {
    pub width: u32,
    pub height: u32,
    pub pixfmt: i32,
}

/// The key a frame shape is kept under: width, height and the pixel format's
/// bits side by side in one integer.
pub open spec fn props_key(p: FrameProps) -> u128 {
    ((p.width as u128) << 64u128) | ((p.height as u128) << 32u128) | ((p.pixfmt as u32) as u128)
}

/// Different frame shapes are kept under different keys.
pub proof fn props_key_injective(a: FrameProps, b: FrameProps)
    requires
        props_key(a) == props_key(b),
    ensures
        a == b,
{
    let (wa, ha, fa) = (a.width, a.height, a.pixfmt as u32);
    let (wb, hb, fb) = (b.width, b.height, b.pixfmt as u32);
    assert(wa == wb && ha == hb && fa == fb) by (bit_vector)
        requires
            ((wa as u128) << 64u128) | ((ha as u128) << 32u128) | (fa as u128) == ((wb as u128)
                << 64u128) | ((hb as u128) << 32u128) | (fb as u128),
    ;
    let (pa, pb) = (a.pixfmt, b.pixfmt);
    assert(pa == pb) by (bit_vector)
        requires
            pa as u32 == pb as u32,
    ;
}

/// The key of a frame shape.
fn key_of(p: FrameProps) -> (k: u128)
    ensures
        k == props_key(p),
{
    ((p.width as u128) << 64u128) | ((p.height as u128) << 32u128) | ((p.pixfmt as u32) as u128)
}

/// Textures that earlier frames were mapped into, kept per frame shape so
/// that the next frame of that shape can be mapped into one of them.
pub struct TextureCache {
    textures: HashMap<u128, Vec<Texture>>,
}

/// The textures kept under each key, most recent last; none under a key
/// without an entry.
pub open spec fn kept(m: Map<u128, Vec<Texture>>, key: u128) -> Seq<Texture> {
    if m.contains_key(key) {
        m[key]@
    } else {
        Seq::empty()
    }
}

impl View for TextureCache {
    /// For each frame shape, the textures kept for it, most recent last.
    type V = Map<FrameProps, Seq<Texture>>;

    closed spec fn view(&self) -> Map<FrameProps, Seq<Texture>> {
        Map::new(|p: FrameProps| true, |p: FrameProps| kept(self.textures@, props_key(p)))
    }
}

/// A cache knows every frame shape; for a shape it has never seen it holds no
/// textures.
pub proof fn texture_cache_knows_every_shape(cache: &TextureCache)
    ensures
        forall|p: FrameProps| #[trigger] cache@.dom().contains(p),
{
}

impl TextureCache {
    /// An empty cache.
    pub fn new() -> (r: TextureCache)
        ensures
            r@ == Map::new(|p: FrameProps| true, |p: FrameProps| Seq::<Texture>::empty()),
    {
        let r = TextureCache { textures: HashMap::new() };
        assert(r@ =~= Map::new(|p: FrameProps| true, |p: FrameProps| Seq::<Texture>::empty()));
        r
    }

    /// Takes out the most recently kept texture for frames of shape `props`,
    /// if there is one.
    pub fn release_texture(&mut self, props: FrameProps) -> (r: Option<Texture>)
        ensures
            old(self)@.dom().contains(props),
            r == if old(self)@[props].len() > 0 {
                Some(old(self)@[props].last())
            } else {
                None::<Texture>
            },
            final(self)@ == if old(self)@[props].len() > 0 {
                old(self)@.insert(props, old(self)@[props].drop_last())
            } else {
                old(self)@
            },
    {
        let key = key_of(props);
        let ghost before = self.textures@;
        match self.textures.remove(&key) {
            None => {
                assert(self.textures@ =~= before);
                None
            },
            Some(mut textures) => {
                let r = textures.pop();
                let ghost rest = textures;
                self.textures.insert(key, textures);
                assert(self@ =~= if before[key]@.len() > 0 {
                    old(self)@.insert(props, before[key]@.drop_last())
                } else {
                    old(self)@
                }) by {
                    assert forall|p: FrameProps| #[trigger] kept(self.textures@, props_key(p)) == (if p
                        == props && before[key]@.len() > 0 {
                        before[key]@.drop_last()
                    } else {
                        kept(before, props_key(p))
                    }) by {
                        if props_key(p) == key {
                            props_key_injective(p, props);
                        }
                    }
                }
                r
            },
        }
    }

    /// Keeps `texture` for reuse by the next frame of shape `props`.
    pub fn consume_texture(&mut self, props: FrameProps, texture: Texture)
        ensures
            old(self)@.dom().contains(props),
            final(self)@ == old(self)@.insert(props, old(self)@[props].push(texture)),
    {
        let key = key_of(props);
        let ghost before = self.textures@;
        let ghost t = texture;
        let mut textures = match self.textures.remove(&key) {
            Some(textures) => textures,
            None => Vec::new(),
        };
        assert(textures@ == kept(before, key));
        textures.push(texture);
        self.textures.insert(key, textures);
        assert(self@ =~= old(self)@.insert(props, old(self)@[props].push(t))) by {
            assert forall|p: FrameProps| #[trigger] kept(self.textures@, props_key(p)) == (if p
                == props {
                kept(before, key).push(t)
            } else {
                kept(before, props_key(p))
            }) by {
                if props_key(p) == key {
                    props_key_injective(p, props);
                }
            }
        }
    }
}

/// Releasing right after keeping a texture for a shape gives that texture
/// back and leaves the cache as it was.
pub proof fn release_after_consume_restores(
    cache: Map<FrameProps, Seq<Texture>>,
    props: FrameProps,
    texture: Texture,
)
    requires
        cache.dom().contains(props),
    ensures
        ({
            let kept = cache.insert(props, cache[props].push(texture));
            &&& kept[props].len() > 0
            &&& kept[props].last() == texture
            &&& kept.insert(props, kept[props].drop_last()) == cache
        }),
{
    let kept = cache.insert(props, cache[props].push(texture));
    assert(kept[props].drop_last() =~= cache[props]);
    assert(kept.insert(props, kept[props].drop_last()) =~= cache);
}

/// The textures kept for one shape are never handed out for another.
pub proof fn shapes_are_kept_apart(
    cache: Map<FrameProps, Seq<Texture>>,
    props: FrameProps,
    other: FrameProps,
    texture: Texture,
)
    requires
        cache.dom().contains(props),
        props != other,
    ensures
        cache.insert(props, cache[props].push(texture))[other] == cache[other],
{
}

} // verus!
