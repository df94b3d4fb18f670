//! Render-side bookkeeping: GPU setup failures and the live texture
//! accounting (how many textures exist and their estimated size).

use vstd::prelude::*;
use crate::text::push_str;

verus! {

/// Why a GPU context could not be created; each carries the driver's message.
#[derive(Debug)]
pub enum GpuError {
    NoAdapter(String),
    NoDevice(String),
}

impl GpuError {
    /// The message describing the failure.
    pub fn message(&self) -> (r: String)
        ensures
            r@ == (match self {
                GpuError::NoAdapter(e) => "no suitable GPU adapter: "@ + e@,
                GpuError::NoDevice(e) => "failed to create GPU device: "@ + e@,
            }),
    {
        match self {
            GpuError::NoAdapter(e) => {
                let mut s = "no suitable GPU adapter: ".to_owned();
                push_str(&mut s, e);
                s
            },
            GpuError::NoDevice(e) => {
                let mut s = "failed to create GPU device: ".to_owned();
                push_str(&mut s, e);
                s
            },
        }
    }
}

/// The estimated base-level size of a texture: width × height × depth ×
/// bytes per pixel.
pub fn estimated_bytes(width: u32, height: u32, depth: u32, bytes_per_pixel: u32) -> (r: u64)
    requires
        width * height * depth * bytes_per_pixel <= u64::MAX,
    ensures
        r == width * height * depth * bytes_per_pixel,
{
    let w = width as u64;
    let h = height as u64;
    let d = depth as u64;
    let b = bytes_per_pixel as u64;
    assert(w * h <= w * h * d * b || d * b == 0) by (nonlinear_arith);
    assert(w * h * d <= w * h * d * b || b == 0) by (nonlinear_arith);
    if d == 0 || b == 0 {
        assert(w * h * d * b == 0) by (nonlinear_arith)
            requires d == 0 || b == 0;
        return 0;
    }
    assert(w * h <= w * h * d * b) by (nonlinear_arith)
        requires d >= 1, b >= 1;
    assert(w * h * d <= w * h * d * b) by (nonlinear_arith)
        requires b >= 1;
    w * h * d * b
}

/// The live texture accounting: every texture built is registered and every
/// texture dropped is released. Both counters wrap like the atomic counters
/// they stand for.
pub struct TextureLedger {
    count: i64,
    bytes: i64,
}

impl TextureLedger {
    pub closed spec fn count_spec(&self) -> i64 {
        self.count
    }

    pub closed spec fn bytes_spec(&self) -> i64 {
        self.bytes
    }

    /// No textures.
    pub fn new() -> (r: TextureLedger)
        ensures
            r.count_spec() == 0,
            r.bytes_spec() == 0,
    {
        TextureLedger { count: 0, bytes: 0 }
    }

    /// Records a new texture of `size` estimated bytes.
    pub fn register(&mut self, size: u64)
        ensures
            final(self).count_spec() == old(self).count_spec().wrapping_add(1),
            final(self).bytes_spec() == old(self).bytes_spec().wrapping_add(size as i64),
    {
        self.count = self.count.wrapping_add(1);
        self.bytes = self.bytes.wrapping_add(size as i64);
    }

    /// Records that a texture of `size` estimated bytes was dropped.
    pub fn release(&mut self, size: u64)
        ensures
            final(self).count_spec() == old(self).count_spec().wrapping_sub(1),
            final(self).bytes_spec() == old(self).bytes_spec().wrapping_sub(size as i64),
    {
        self.count = self.count.wrapping_sub(1);
        self.bytes = self.bytes.wrapping_sub(size as i64);
    }

    /// Number of live textures.
    pub fn live_texture_count(&self) -> (r: i64)
        ensures
            r == self.count_spec(),
    {
        self.count
    }

    /// Total estimated bytes of the live textures.
    pub fn live_texture_bytes(&self) -> (r: i64)
        ensures
            r == self.bytes_spec(),
    {
        self.bytes
    }
}

/// A change to the live textures: one of the given estimated size built or
/// dropped.
pub enum TextureEvent {
    Built(u64),
    Dropped(u64),
}

/// The counters after recording `ev`, starting from `count` and `bytes`.
pub open spec fn ledger_after(count: i64, bytes: i64, ev: Seq<TextureEvent>) -> (i64, i64)
    decreases ev.len(),
{
    if ev.len() == 0 {
        (count, bytes)
    } else {
        let (c, b) = ledger_after(count, bytes, ev.drop_last());
        match ev.last() {
            TextureEvent::Built(size) => (c.wrapping_add(1), b.wrapping_add(size as i64)),
            TextureEvent::Dropped(size) => (c.wrapping_sub(1), b.wrapping_sub(size as i64)),
        }
    }
}

/// Textures built minus textures dropped.
pub open spec fn live_count(ev: Seq<TextureEvent>) -> int
    decreases ev.len(),
{
    if ev.len() == 0 {
        0
    } else {
        live_count(ev.drop_last()) + match ev.last() {
            TextureEvent::Built(_) => 1int,
            TextureEvent::Dropped(_) => -1int,
        }
    }
}

/// The sizes built minus the sizes dropped (each as the counter adds it).
pub open spec fn live_bytes(ev: Seq<TextureEvent>) -> int
    decreases ev.len(),
{
    if ev.len() == 0 {
        0
    } else {
        live_bytes(ev.drop_last()) + match ev.last() {
            TextureEvent::Built(size) => (size as i64) as int,
            TextureEvent::Dropped(size) => -((size as i64) as int),
        }
    }
}

proof fn lemma_ledger_after(ev: Seq<TextureEvent>) -> (k: (int, int))
    ensures
        ledger_after(0, 0, ev).0 == live_count(ev) + k.0 * 0x1_0000_0000_0000_0000int,
        ledger_after(0, 0, ev).1 == live_bytes(ev) + k.1 * 0x1_0000_0000_0000_0000int,
    decreases ev.len(),
{
    if ev.len() == 0 {
        (0, 0)
    } else {
        let (k0, k1) = lemma_ledger_after(ev.drop_last());
        let (c, b) = ledger_after(0, 0, ev.drop_last());
        match ev.last() {
            TextureEvent::Built(size) => {
                let z = size as i64;
                let k0n = if c + 1 > i64::MAX { k0 - 1 } else { k0 };
                let k1n = if b + z > i64::MAX { k1 - 1 } else if b + z < i64::MIN { k1 + 1 } else { k1 };
                (k0n, k1n)
            },
            TextureEvent::Dropped(size) => {
                let z = size as i64;
                let k0n = if c - 1 < i64::MIN { k0 + 1 } else { k0 };
                let k1n = if b - z > i64::MAX { k1 - 1 } else if b - z < i64::MIN { k1 + 1 } else { k1 };
                (k0n, k1n)
            },
        }
    }
}

/// The ledger tracks the live textures: after any sequence of textures built
/// and dropped, starting from an empty ledger, the count is the number built
/// minus the number dropped and the bytes are their sizes built minus their
/// sizes dropped, both up to a multiple of 2^64 (the counters wrap), and
/// exactly so whenever that number fits in an `i64`. A sequence that drops
/// every texture it builds brings both back to 0.
pub proof fn law_ledger_tracks_live(ev: Seq<TextureEvent>)
    ensures
        (ledger_after(0, 0, ev).0 - live_count(ev)) % 0x1_0000_0000_0000_0000int == 0,
        (ledger_after(0, 0, ev).1 - live_bytes(ev)) % 0x1_0000_0000_0000_0000int == 0,
        i64::MIN <= live_count(ev) <= i64::MAX ==> ledger_after(0, 0, ev).0 == live_count(ev),
        i64::MIN <= live_bytes(ev) <= i64::MAX ==> ledger_after(0, 0, ev).1 == live_bytes(ev),
{
    let (k0, k1) = lemma_ledger_after(ev);
    vstd::arithmetic::div_mod::lemma_mod_multiples_basic(k0, 0x1_0000_0000_0000_0000int);
    vstd::arithmetic::div_mod::lemma_mod_multiples_basic(k1, 0x1_0000_0000_0000_0000int);
    if k0 > 0 {
        assert(k0 * 0x1_0000_0000_0000_0000int >= 0x1_0000_0000_0000_0000int) by (nonlinear_arith)
            requires
                k0 > 0,
        ;
    } else if k0 < 0 {
        assert(k0 * 0x1_0000_0000_0000_0000int <= -0x1_0000_0000_0000_0000int) by (nonlinear_arith)
            requires
                k0 < 0,
        ;
    }
    if k1 > 0 {
        assert(k1 * 0x1_0000_0000_0000_0000int >= 0x1_0000_0000_0000_0000int) by (nonlinear_arith)
            requires
                k1 > 0,
        ;
    } else if k1 < 0 {
        assert(k1 * 0x1_0000_0000_0000_0000int <= -0x1_0000_0000_0000_0000int) by (nonlinear_arith)
            requires
                k1 < 0,
        ;
    }
}

/// Releasing a texture undoes registering it: a ledger that registers a
/// texture of `size` bytes and then releases one of the same size is back
/// where it started, whatever the counters held (wrapping included).
pub proof fn law_release_undoes_register(
    before: TextureLedger,
    registered: TextureLedger,
    released: TextureLedger,
    size: u64,
)
    requires
        registered.count_spec() == before.count_spec().wrapping_add(1),
        registered.bytes_spec() == before.bytes_spec().wrapping_add(size as i64),
        released.count_spec() == registered.count_spec().wrapping_sub(1),
        released.bytes_spec() == registered.bytes_spec().wrapping_sub(size as i64),
    ensures
        released.count_spec() == before.count_spec(),
        released.bytes_spec() == before.bytes_spec(),
{
}

} // verus!
