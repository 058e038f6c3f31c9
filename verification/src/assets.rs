// Image assets: which image belongs to which slot, and a cache of decompressed
// RGB565 images. The compressed (zlib) images are linked into the firmware and
// handed in by the caller.
use vstd::prelude::*;
use crate::ui_state::OmnitrixState;

verus! {

pub const MAX_IMG_W: u32 = 466;
pub const MAX_IMG_H: u32 = 466;
pub const IMG_W: u32 = 308;
pub const IMG_H: u32 = 374;
/// Number of cache slots, one per asset.
pub const ASSET_MAX: usize = 17;

#[derive(Copy, Clone, Debug, PartialEq, Eq, Structural)]
pub enum AssetId {
    Alien1,
    Alien2,
    Alien3,
    Alien4,
    Alien5,
    Alien6,
    Alien7,
    Alien8,
    Alien9,
    Alien10,
    Logo,
    InfoPage,
    SettingsImage,
    WatchIcon,
    GamesIcon,
    PongIcon,
    SnakeIcon,
}

#[verifier::external_type_specification]
#[verifier::external_body]
pub struct ExDecompressError(miniz_oxide::inflate::DecompressError);

/// What `miniz_oxide::inflate::decompress_to_vec_zlib_with_limit` produces for a zlib
/// stream and an output limit: the decompressed bytes, or nothing when it fails.
pub uninterp spec fn zlib_inflate(input: Seq<u8>, max_size: usize) -> Option<Seq<u8>>;

/// `miniz_oxide::inflate::decompress_to_vec_zlib_with_limit`: decompresses a zlib
/// stream into a vector grown to at most `max_size` bytes; it fails on a bad stream
/// or when the output does not fit.
#[verifier::external_body]
fn inflate_zlib(input: &[u8], max_size: usize) -> (r: Result<Vec<u8>, miniz_oxide::inflate::DecompressError>)
    ensures
        r is Ok <==> zlib_inflate(input@, max_size) is Some,
        r matches Ok(v) ==> v@ == zlib_inflate(input@, max_size)->0 && v@.len() <= max_size,
{
    miniz_oxide::inflate::decompress_to_vec_zlib_with_limit(input, max_size)
}

/// Cache slot, width and height of each asset, in declaration order.
pub open spec fn meta_spec(id: AssetId) -> (int, int, int) {
    match id {
        AssetId::Alien1 => (0, 308, 374),
        AssetId::Alien2 => (1, 308, 374),
        AssetId::Alien3 => (2, 308, 374),
        AssetId::Alien4 => (3, 308, 374),
        AssetId::Alien5 => (4, 308, 374),
        AssetId::Alien6 => (5, 308, 374),
        AssetId::Alien7 => (6, 308, 374),
        AssetId::Alien8 => (7, 308, 374),
        AssetId::Alien9 => (8, 308, 374),
        AssetId::Alien10 => (9, 308, 374),
        AssetId::Logo => (10, 466, 466),
        AssetId::InfoPage => (11, 466, 466),
        AssetId::SettingsImage => (12, 400, 344),
        AssetId::WatchIcon => (13, 316, 316),
        AssetId::GamesIcon => (14, 300, 300),
        AssetId::PongIcon => (15, 276, 276),
        AssetId::SnakeIcon => (16, 297, 276),
    }
}

/// Bytes of the decompressed RGB565 image of an asset: two per pixel.
pub open spec fn need_spec(id: AssetId) -> int {
    meta_spec(id).1 * meta_spec(id).2 * 2
}

/// Size in bytes of the decompressed image of an asset.
pub fn asset_need(id: AssetId) -> (r: usize)
    ensures
        r == need_spec(id),
{
    let (_, w, h) = asset_meta(id);
    assert((w as int) * (h as int) <= 466 * 466) by (nonlinear_arith)
        requires
            w <= 466,
            h <= 466,
    ;
    (w as usize) * (h as usize) * 2
}

/// Cache slot, width and height of an asset.
pub fn asset_meta(id: AssetId) -> (r: (usize, u32, u32))
    ensures
        r.0 == meta_spec(id).0,
        r.1 == meta_spec(id).1,
        r.2 == meta_spec(id).2,
        r.0 < ASSET_MAX,
{
    match id {
        AssetId::Alien1 => (0, 308, 374),
        AssetId::Alien2 => (1, 308, 374),
        AssetId::Alien3 => (2, 308, 374),
        AssetId::Alien4 => (3, 308, 374),
        AssetId::Alien5 => (4, 308, 374),
        AssetId::Alien6 => (5, 308, 374),
        AssetId::Alien7 => (6, 308, 374),
        AssetId::Alien8 => (7, 308, 374),
        AssetId::Alien9 => (8, 308, 374),
        AssetId::Alien10 => (9, 308, 374),
        AssetId::Logo => (10, 466, 466),
        AssetId::InfoPage => (11, 466, 466),
        AssetId::SettingsImage => (12, 400, 344),
        AssetId::WatchIcon => (13, 316, 316),
        AssetId::GamesIcon => (14, 300, 300),
        AssetId::PongIcon => (15, 276, 276),
        AssetId::SnakeIcon => (16, 297, 276),
    }
}

pub open spec fn alien_asset(s: OmnitrixState) -> AssetId {
    match s {
        OmnitrixState::Alien1 => AssetId::Alien1,
        OmnitrixState::Alien2 => AssetId::Alien2,
        OmnitrixState::Alien3 => AssetId::Alien3,
        OmnitrixState::Alien4 => AssetId::Alien4,
        OmnitrixState::Alien5 => AssetId::Alien5,
        OmnitrixState::Alien6 => AssetId::Alien6,
        OmnitrixState::Alien7 => AssetId::Alien7,
        OmnitrixState::Alien8 => AssetId::Alien8,
        OmnitrixState::Alien9 => AssetId::Alien9,
        OmnitrixState::Alien10 => AssetId::Alien10,
    }
}

/// The image of the alien shown on an Omnitrix page.
pub fn asset_id_for_state(s: OmnitrixState) -> (r: AssetId)
    ensures
        r == alien_asset(s),
{
    match s {
        OmnitrixState::Alien1 => AssetId::Alien1,
        OmnitrixState::Alien2 => AssetId::Alien2,
        OmnitrixState::Alien3 => AssetId::Alien3,
        OmnitrixState::Alien4 => AssetId::Alien4,
        OmnitrixState::Alien5 => AssetId::Alien5,
        OmnitrixState::Alien6 => AssetId::Alien6,
        OmnitrixState::Alien7 => AssetId::Alien7,
        OmnitrixState::Alien8 => AssetId::Alien8,
        OmnitrixState::Alien9 => AssetId::Alien9,
        OmnitrixState::Alien10 => AssetId::Alien10,
    }
}

/// Decompressed images by slot, with their width and height.
pub struct AssetCache {
    slots: Vec<Option<(Vec<u8>, u32, u32)>>,
}

/// A slot's image as plain bytes.
pub open spec fn slot_view(s: Option<(Vec<u8>, u32, u32)>) -> Option<(Seq<u8>, u32, u32)> {
    match s {
        Some((d, w, h)) => Some((d@, w, h)),
        None => None,
    }
}

impl View for AssetCache {
    type V = Seq<Option<(Seq<u8>, u32, u32)>>;

    closed spec fn view(&self) -> Seq<Option<(Seq<u8>, u32, u32)>> {
        self.slots@.map_values(|s: Option<(Vec<u8>, u32, u32)>| slot_view(s))
    }
}

/// The slot `id` when its image decompressed to exactly the expected size.
pub open spec fn decoded_slot(id: AssetId, decoded: Option<Seq<u8>>) -> Option<(Seq<u8>, u32, u32)> {
    match decoded {
        Some(v) => if v.len() == need_spec(id) {
            Some((v, meta_spec(id).1 as u32, meta_spec(id).2 as u32))
        } else {
            None
        },
        None => None,
    }
}

impl AssetCache {
    pub open spec fn wf(&self) -> bool {
        self@.len() == ASSET_MAX
    }

    pub fn new() -> (r: Self)
        ensures
            r.wf(),
            forall|i: int| 0 <= i < ASSET_MAX ==> #[trigger] r@[i] is None,
    {
        let mut slots: Vec<Option<(Vec<u8>, u32, u32)>> = Vec::new();
        let mut i: usize = 0;
        while i < ASSET_MAX
            invariant
                i <= ASSET_MAX,
                slots@.len() == i,
                forall|j: int| 0 <= j < i ==> #[trigger] slots@[j] is None,
            decreases ASSET_MAX - i,
        {
            slots.push(None);
            i = i + 1;
        }
        let r = AssetCache { slots };
        assert forall|j: int| 0 <= j < ASSET_MAX implies #[trigger] r@[j] is None by {
            assert(r@[j] == slot_view(slots@[j]));
        }
        r
    }

    fn set_slot(&mut self, idx: usize, v: Option<(Vec<u8>, u32, u32)>)
        requires
            old(self).wf(),
            idx < ASSET_MAX,
        ensures
            final(self).wf(),
            final(self)@ == old(self)@.update(idx as int, slot_view(v)),
    {
        let ghost sv = slot_view(v);
        self.slots.set(idx, v);
        proof {
            assert(self@ =~= old(self)@.update(idx as int, sv));
        }
    }
}

/// Empties every slot.
pub fn clear_cache(cache: &mut AssetCache)
    requires
        old(cache).wf(),
    ensures
        final(cache).wf(),
        forall|i: int| 0 <= i < ASSET_MAX ==> #[trigger] final(cache)@[i] is None,
{
    let mut i: usize = 0;
    while i < ASSET_MAX
        invariant
            cache.wf(),
            i <= ASSET_MAX,
            forall|j: int| 0 <= j < i ==> #[trigger] cache@[j] is None,
        decreases ASSET_MAX - i,
    {
        cache.set_slot(i, None);
        i = i + 1;
    }
}

/// Empties the slot of one asset.
pub fn clear_cached_asset(cache: &mut AssetCache, id: AssetId)
    requires
        old(cache).wf(),
    ensures
        final(cache).wf(),
        final(cache)@ == old(cache)@.update(meta_spec(id).0, None),
{
    let (idx, _, _) = asset_meta(id);
    cache.set_slot(idx, None);
}

/// Stores a decompressed image in the slot of `id` unless the slot is already filled.
/// An image is kept only when it has exactly the expected size. Returns whether the
/// slot holds an image afterwards.
pub fn cache_decoded(cache: &mut AssetCache, id: AssetId, decoded: Option<Vec<u8>>) -> (r: bool)
    requires
        old(cache).wf(),
    ensures
        final(cache).wf(),
        old(cache)@[meta_spec(id).0] is Some ==> r && final(cache)@ == old(cache)@,
        old(cache)@[meta_spec(id).0] is None ==> {
            let d = match decoded { Some(v) => Some(v@), None => None };
            &&& r == decoded_slot(id, d) is Some
            &&& final(cache)@ == (if r { old(cache)@.update(meta_spec(id).0, decoded_slot(id, d)) } else { old(cache)@ })
        },
{
    let (idx, w, h) = asset_meta(id);
    if cache.slots[idx].is_some() {
        return true;
    }
    let need = asset_need(id);
    match decoded {
        Some(v) => {
            if v.len() == need {
                cache.set_slot(idx, Some((v, w, h)));
                true
            } else {
                false
            }
        },
        None => false,
    }
}

/// Decompresses the image of `id` from its zlib blob into its slot, unless the slot is
/// already filled. Returns whether the slot holds an image afterwards.
pub fn precache_asset(cache: &mut AssetCache, id: AssetId, blob: &[u8]) -> (r: bool)
    requires
        old(cache).wf(),
    ensures
        final(cache).wf(),
        old(cache)@[meta_spec(id).0] is Some ==> r && final(cache)@ == old(cache)@,
        old(cache)@[meta_spec(id).0] is None ==> {
            let d = zlib_inflate(blob@, need_spec(id) as usize);
            &&& r == decoded_slot(id, d) is Some
            &&& final(cache)@ == (if r { old(cache)@.update(meta_spec(id).0, decoded_slot(id, d)) } else { old(cache)@ })
        },
{
    let (idx, _, _) = asset_meta(id);
    if cache.slots[idx].is_some() {
        return true;
    }
    let need = asset_need(id);
    let decoded = match inflate_zlib(blob, need) {
        Ok(v) => Some(v),
        Err(_) => None,
    };
    cache_decoded(cache, id, decoded)
}

/// The cached image of an asset with its width and height, if its slot is filled.
pub fn get_cached_asset(cache: &AssetCache, id: AssetId) -> (r: Option<(&[u8], u32, u32)>)
    requires
        cache.wf(),
    ensures
        match cache@[meta_spec(id).0] {
            Some((d, w, h)) => r matches Some((b, rw, rh)) && b@ == d && rw == w && rh == h,
            None => r is None,
        },
{
    let (idx, _, _) = asset_meta(id);
    match &cache.slots[idx] {
        Some((d, w, h)) => {
            proof {
                assert(cache@[idx as int] == slot_view(cache.slots@[idx as int]));
            }
            Some((d.as_slice(), *w, *h))
        },
        None => {
            proof {
                assert(cache@[idx as int] == slot_view(cache.slots@[idx as int]));
            }
            None
        },
    }
}

/// Decompresses an image that is drawn without being cached; only an image of exactly
/// `need` bytes is returned.
pub fn decompress_image(blob: &[u8], need: usize) -> (r: Option<Vec<u8>>)
    ensures
        match zlib_inflate(blob@, need) {
            Some(v) => if v.len() == need { r matches Some(b) && b@ == v } else { r is None },
            None => r is None,
        },
{
    match inflate_zlib(blob, need) {
        Ok(v) => {
            if v.len() == need {
                Some(v)
            } else {
                None
            }
        },
        Err(_) => None,
    }
}

/// Decompresses the watch background into `bg` unless it is already there. Returns
/// whether a background is available afterwards.
pub fn ensure_watch_background_loaded(bg: &mut Option<Vec<u8>>, blob: &[u8]) -> (r: bool)
    ensures
        (*old(bg)) is Some ==> r && *final(bg) == *old(bg),
        (*old(bg)) is None ==> {
            &&& r == zlib_inflate(blob@, (MAX_IMG_W * MAX_IMG_H * 2) as usize) is Some
            &&& r ==> (*final(bg) matches Some(v) && v@ == zlib_inflate(blob@, (MAX_IMG_W * MAX_IMG_H * 2) as usize)->0)
            &&& !r ==> (*final(bg)) is None
        },
{
    if bg.is_some() {
        return true;
    }
    let need: usize = (MAX_IMG_W as usize) * (MAX_IMG_H as usize) * 2;
    match inflate_zlib(blob, need) {
        Ok(v) => {
            *bg = Some(v);
            true
        },
        Err(_) => false,
    }
}

/// The assets decompressed at boot, in order.
pub open spec fn boot_asset(i: int) -> AssetId {
    if i < 10 {
        alien_asset(
            if i == 0 { OmnitrixState::Alien1 } else if i == 1 { OmnitrixState::Alien2 } else if i == 2 {
                OmnitrixState::Alien3
            } else if i == 3 { OmnitrixState::Alien4 } else if i == 4 { OmnitrixState::Alien5 } else if i == 5 {
                OmnitrixState::Alien6
            } else if i == 6 { OmnitrixState::Alien7 } else if i == 7 { OmnitrixState::Alien8 } else if i == 8 {
                OmnitrixState::Alien9
            } else { OmnitrixState::Alien10 },
        )
    } else if i == 10 {
        AssetId::Logo
    } else if i == 11 {
        AssetId::SettingsImage
    } else if i == 12 {
        AssetId::WatchIcon
    } else {
        AssetId::GamesIcon
    }
}

/// Number of assets decompressed at boot.
pub const BOOT_ASSETS: usize = 14;

/// Whether precaching `id` from its blob leaves its slot filled.
pub open spec fn precache_ok(c: Seq<Option<(Seq<u8>, u32, u32)>>, blobs: Seq<Seq<u8>>, id: AssetId) -> bool {
    let idx = meta_spec(id).0;
    c[idx] is Some || decoded_slot(id, zlib_inflate(blobs[idx], need_spec(id) as usize)) is Some
}

/// The cache after precaching `id` from its blob.
pub open spec fn precache_step(c: Seq<Option<(Seq<u8>, u32, u32)>>, blobs: Seq<Seq<u8>>, id: AssetId) -> Seq<Option<(Seq<u8>, u32, u32)>> {
    let idx = meta_spec(id).0;
    let d = decoded_slot(id, zlib_inflate(blobs[idx], need_spec(id) as usize));
    if c[idx] is None && d is Some { c.update(idx, d) } else { c }
}

/// The cache after precaching the first `k` boot assets.
pub open spec fn after_boot_precache(c: Seq<Option<(Seq<u8>, u32, u32)>>, blobs: Seq<Seq<u8>>, k: nat) -> Seq<Option<(Seq<u8>, u32, u32)>>
    decreases k,
{
    if k == 0 {
        c
    } else {
        precache_step(after_boot_precache(c, blobs, (k - 1) as nat), blobs, boot_asset(k - 1))
    }
}

/// Decompresses the boot assets in order, stopping at the first that fails, and
/// returns how many are cached. `blobs[i]` is the zlib blob of the asset in slot `i`.
pub fn precache_all(cache: &mut AssetCache, blobs: &[&[u8]]) -> (r: usize)
    requires
        old(cache).wf(),
        blobs@.len() == ASSET_MAX,
    ensures
        final(cache).wf(),
        r <= BOOT_ASSETS,
        ({
            let b = blobs@.map_values(|x: &[u8]| x@);
            &&& forall|j: int| 0 <= j < r ==> #[trigger] precache_ok(after_boot_precache(old(cache)@, b, j as nat), b, boot_asset(j))
            &&& r < BOOT_ASSETS ==> !precache_ok(after_boot_precache(old(cache)@, b, r as nat), b, boot_asset(r as int))
            &&& final(cache)@ == after_boot_precache(old(cache)@, b, r as nat)
        }),
{
    let ids: [AssetId; 14] = [
        AssetId::Alien1,
        AssetId::Alien2,
        AssetId::Alien3,
        AssetId::Alien4,
        AssetId::Alien5,
        AssetId::Alien6,
        AssetId::Alien7,
        AssetId::Alien8,
        AssetId::Alien9,
        AssetId::Alien10,
        AssetId::Logo,
        AssetId::SettingsImage,
        AssetId::WatchIcon,
        AssetId::GamesIcon,
    ];
    let ghost b = blobs@.map_values(|x: &[u8]| x@);
    let ghost c0 = cache@;
    let mut ok: usize = 0;
    while ok < BOOT_ASSETS
        invariant_except_break
            forall|j: int| 0 <= j < ok ==> #[trigger] precache_ok(after_boot_precache(c0, b, j as nat), b, boot_asset(j)),
        invariant
            cache.wf(),
            ok <= BOOT_ASSETS,
            blobs@.len() == ASSET_MAX,
            b == blobs@.map_values(|x: &[u8]| x@),
            forall|i: int| 0 <= i < 14 ==> #[trigger] ids[i] == boot_asset(i),
            cache@ == after_boot_precache(c0, b, ok as nat),
        ensures
            forall|j: int| 0 <= j < ok ==> #[trigger] precache_ok(after_boot_precache(c0, b, j as nat), b, boot_asset(j)),
            ok < BOOT_ASSETS ==> !precache_ok(after_boot_precache(c0, b, ok as nat), b, boot_asset(ok as int)),
            cache@ == after_boot_precache(c0, b, ok as nat),
        decreases BOOT_ASSETS - ok,
    {
        let id = ids[ok];
        let (idx, _, _) = asset_meta(id);
        let blob = blobs[idx];
        let ghost before = cache@;
        let done = precache_asset(cache, id, blob);
        proof {
            assert(blob@ == b[idx as int]);
            assert(cache@ == precache_step(before, b, id));
            assert(done == precache_ok(before, b, id));
        }
        if done {
            ok = ok + 1;
        } else {
            break;
        }
    }
    ok
}

} // verus!
