// Boot sequence: the order in which images are decompressed while the hourglass
// animation runs, and when the animation ends.
use vstd::prelude::*;
use crate::assets::AssetId;

verus! {

/// Frames of the hourglass fill animation.
pub const BOOT_FRAMES: u32 = 60;
/// Time between animation frames.
pub const FRAME_DELAY_MS: u32 = 16;
/// After the fill, the brightness pulses every this many frames.
pub const PULSE_FRAMES: u32 = 20;
/// Number of images decompressed during boot.
pub const BOOT_ASSET_COUNT: usize = 13;

/// The images decompressed during boot, in order.
pub fn boot_assets() -> (r: [AssetId; 13])
    ensures
        r@ == seq![
            AssetId::Alien1, AssetId::Alien2, AssetId::Alien3, AssetId::Alien4, AssetId::Alien5,
            AssetId::Alien6, AssetId::Alien7, AssetId::Alien8, AssetId::Alien9, AssetId::Alien10,
            AssetId::SettingsImage, AssetId::WatchIcon, AssetId::Logo,
        ],
{
    let r = [
        AssetId::Alien1,
        AssetId::Alien2,
        AssetId::Alien3,
        AssetId::Alien4,
        AssetId::Alien5,
        AssetId::Alien6,
        AssetId::Alien7,
        AssetId::Alien8,
        AssetId::Alien9,
        AssetId::Alien10,
        AssetId::SettingsImage,
        AssetId::WatchIcon,
        AssetId::Logo,
    ];
    assert(r@ =~= seq![
        AssetId::Alien1, AssetId::Alien2, AssetId::Alien3, AssetId::Alien4, AssetId::Alien5,
        AssetId::Alien6, AssetId::Alien7, AssetId::Alien8, AssetId::Alien9, AssetId::Alien10,
        AssetId::SettingsImage, AssetId::WatchIcon, AssetId::Logo,
    ]);
    r
}

/// When images are decompressed on the main core, one is loaded every this many
/// milliseconds: the animation time spread over the images (at least 1).
pub fn boot_load_interval_ms() -> (r: u64)
    ensures
        r == 73,
{
    let total: u64 = (BOOT_FRAMES as u64) * (FRAME_DELAY_MS as u64);
    let v = total / (BOOT_ASSET_COUNT as u64);
    if v > 1 { v } else { 1 }
}

/// Whether the next image is due: some are left and the interval has passed.
pub fn boot_load_due(next_idx: usize, now_ms: u64, last_load_ms: u64, interval_ms: u64) -> (r: bool)
    ensures
        r == (next_idx < BOOT_ASSET_COUNT && (if now_ms >= last_load_ms { now_ms - last_load_ms } else { 0 }) >= interval_ms),
{
    next_idx < BOOT_ASSET_COUNT && now_ms.saturating_sub(last_load_ms) >= interval_ms
}

/// After the fill animation, every 20th frame toggles the pulse between full (255) and
/// dim (64) brightness. Returns the new pulse state, the brightness to set on a toggle,
/// and whether the animation ends: on a toggle to full once the images are loaded.
pub fn boot_pulse(frame: u32, pulse_on: bool, assets_done: bool) -> (r: (bool, Option<u8>, bool))
    ensures
        frame < BOOT_FRAMES ==> r == (pulse_on, None::<u8>, false),
        frame >= BOOT_FRAMES && (frame - BOOT_FRAMES) % 20 != 0 ==> r == (pulse_on, None::<u8>, false),
        frame >= BOOT_FRAMES && (frame - BOOT_FRAMES) % 20 == 0 ==> r == (
            !pulse_on,
            Some(if !pulse_on { 255u8 } else { 64u8 }),
            assets_done && !pulse_on,
        ),
{
    if frame < BOOT_FRAMES || (frame - BOOT_FRAMES) % PULSE_FRAMES != 0 {
        return (pulse_on, None, false);
    }
    let on = !pulse_on;
    let level: u8 = if on { 255 } else { 64 };
    (on, Some(level), assets_done && on)
}

} // verus!
