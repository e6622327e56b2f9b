//! The window's position and size, how they are stored, and when a change is
//! written back.
//!
//! The placement is stored as the text `x,y,width,height`. A change is only
//! written once the window has stayed put for a moment, so dragging the window
//! across the screen does not write on every frame.

use std::sync::Arc;

use vstd::prelude::*;
use vstd::rwlock::{RwLock, RwLockPredicate};

use crate::utf16::{
    decode_range, decode_utf16, encode_utf16, find_nul, lemma_decode_encode,
    lemma_encode_has_no_nul, lemma_until_nul_of_terminated, until_nul, wide,
};
use crate::text::{
    chars_of, decimal_digits, find_char, lemma_parse_signed_decimal, lemma_parse_unsigned_decimal,
    lemma_split_first, lemma_split_whole, parse_signed, parse_signed_range, parse_unsigned,
    parse_unsigned_range, push_char, push_decimal, push_signed_decimal, signed_decimal, split,
    split_from,
};

verus! {

/// The window's inner size in points: what it opens at, and the limits it can
/// be resized between.
pub const DEFAULT_WIDTH: u32 = 380;
pub const DEFAULT_HEIGHT: u32 = 220;
pub const MIN_WIDTH: u32 = 120;
pub const MIN_HEIGHT: u32 = 80;
pub const MAX_WIDTH: u32 = 540;
pub const MAX_HEIGHT: u32 = 320;

/// How long the window has to stay put before a new placement is written, in
/// nanoseconds.
pub const SAVE_DELAY_NANOS: u64 = 700_000_000;

#[derive(Clone, Copy, Debug, PartialEq, Eq, Structural)]
pub struct WindowPlacement {
    pub x: i32,
    pub y: i32,
    pub width: u32,
    pub height: u32,
}

pub open spec fn parse_i32(s: Seq<char>) -> Option<int> {
    parse_signed(s, 0x7fff_ffff)
}

pub open spec fn parse_u32(s: Seq<char>) -> Option<nat> {
    parse_unsigned(s, 0xffff_ffff)
}

/// The placement the stored text `s` describes: exactly four comma-separated
/// fields, two `i32` and two `u32` as `str::parse` reads them.
pub open spec fn parse_placement(s: Seq<char>) -> Option<WindowPlacement> {
    let fields = split(s, ',');
    if fields.len() == 4 && parse_i32(fields[0]) is Some && parse_i32(fields[1]) is Some
        && parse_u32(fields[2]) is Some && parse_u32(fields[3]) is Some {
        Some(
            WindowPlacement {
                x: parse_i32(fields[0])->0 as i32,
                y: parse_i32(fields[1])->0 as i32,
                width: parse_u32(fields[2])->0 as u32,
                height: parse_u32(fields[3])->0 as u32,
            },
        )
    } else {
        None
    }
}

/// The text a placement is stored as: `x,y,width,height`.
pub open spec fn encoded(p: WindowPlacement) -> Seq<char> {
    signed_decimal(p.x as int) + seq![','] + signed_decimal(p.y as int) + seq![','] + decimal_digits(
        p.width as nat,
    ) + seq![','] + decimal_digits(p.height as nat)
}

pub open spec fn clamp(v: u32, min: u32, max: u32) -> u32 {
    if v < min {
        min
    } else if v > max {
        max
    } else {
        v
    }
}

impl WindowPlacement {
    /// The text this placement is stored as.
    pub fn encode(self) -> (text: String)
        ensures
            text@ == encoded(self),
    {
        let mut text = String::new();
        push_signed_decimal(&mut text, self.x as i64);
        push_char(&mut text, ',');
        push_signed_decimal(&mut text, self.y as i64);
        push_char(&mut text, ',');
        push_decimal(&mut text, self.width as u64);
        push_char(&mut text, ',');
        push_decimal(&mut text, self.height as u64);
        assert(text@ =~= encoded(self));
        text
    }

    /// The inner size to open the window at, in points: the stored size kept
    /// within the limits the window can be resized to.
    pub fn restored_size(self) -> (size: [u32; 2])
        ensures
            size@ == seq![
                clamp(self.width, MIN_WIDTH, MAX_WIDTH),
                clamp(self.height, MIN_HEIGHT, MAX_HEIGHT),
            ],
    {
        let width = if self.width < MIN_WIDTH {
            MIN_WIDTH
        } else if self.width > MAX_WIDTH {
            MAX_WIDTH
        } else {
            self.width
        };
        let height = if self.height < MIN_HEIGHT {
            MIN_HEIGHT
        } else if self.height > MAX_HEIGHT {
            MAX_HEIGHT
        } else {
            self.height
        };
        let size = [width, height];
        assert(size@ =~= seq![width, height]);
        size
    }
}

/// The placement the stored text `value` describes, if it is well formed.
pub fn parse(value: &str) -> (placement: Option<WindowPlacement>)
    ensures
        placement == parse_placement(value@),
{
    let chars = chars_of(value);
    parse_chars(&chars)
}

pub(crate) fn parse_chars(s: &[char]) -> (placement: Option<WindowPlacement>)
    ensures
        placement == parse_placement(s@),
{
    let n = s.len();
    let ghost fields = split(s@, ',');
    let e0 = find_char(s, ',', 0);
    let ghost p0 = s@.subrange(0, e0 as int);
    if e0 == n {
        assert(fields =~= seq![p0]);
        return None;
    }
    assert(fields =~= seq![p0] + split_from(s@, ',', e0 + 1));
    let e1 = find_char(s, ',', e0 + 1);
    let ghost p1 = s@.subrange(e0 + 1, e1 as int);
    if e1 == n {
        assert(split_from(s@, ',', e0 + 1) =~= seq![p1]);
        assert(fields.len() == 2);
        return None;
    }
    assert(split_from(s@, ',', e0 + 1) =~= seq![p1] + split_from(s@, ',', e1 + 1));
    let e2 = find_char(s, ',', e1 + 1);
    let ghost p2 = s@.subrange(e1 + 1, e2 as int);
    if e2 == n {
        assert(split_from(s@, ',', e1 + 1) =~= seq![p2]);
        assert(fields.len() == 3);
        return None;
    }
    assert(split_from(s@, ',', e1 + 1) =~= seq![p2] + split_from(s@, ',', e2 + 1));
    let e3 = find_char(s, ',', e2 + 1);
    let ghost p3 = s@.subrange(e2 + 1, e3 as int);
    if e3 < n {
        assert(split_from(s@, ',', e2 + 1) =~= seq![p3] + split_from(s@, ',', e3 + 1));
        assert(fields.len() > 4);
        return None;
    }
    assert(split_from(s@, ',', e2 + 1) =~= seq![p3]);
    assert(fields =~= seq![p0, p1, p2, p3]);
    let x = parse_signed_range(s, 0, e0, 0x7fff_ffff);
    let y = parse_signed_range(s, e0 + 1, e1, 0x7fff_ffff);
    let width = parse_unsigned_range(s, e1 + 1, e2, 0xffff_ffff);
    let height = parse_unsigned_range(s, e2 + 1, n, 0xffff_ffff);
    match (x, y, width, height) {
        (Some(x), Some(y), Some(width), Some(height)) => Some(
            WindowPlacement { x: x as i32, y: y as i32, width: width as u32, height: height as u32 },
        ),
        _ => None,
    }
}

/// Reading back the text a placement is stored as gives the placement.
pub proof fn lemma_encode_round_trip(p: WindowPlacement)
    ensures
        parse_placement(encoded(p)) == Some(p),
{
    let fx = signed_decimal(p.x as int);
    let fy = signed_decimal(p.y as int);
    let fw = decimal_digits(p.width as nat);
    let fh = decimal_digits(p.height as nat);
    lemma_no_comma_in_number(p.x as int);
    lemma_no_comma_in_number(p.y as int);
    lemma_no_comma_in_number(p.width as int);
    lemma_no_comma_in_number(p.height as int);
    let r3 = fh;
    let r2 = fw + seq![','] + r3;
    let r1 = fy + seq![','] + r2;
    assert(encoded(p) =~= fx + seq![','] + r1);
    lemma_split_whole(r3, ',');
    lemma_split_first(fw, ',', r3);
    lemma_split_first(fy, ',', r2);
    lemma_split_first(fx, ',', r1);
    assert(split(encoded(p), ',') =~= seq![fx, fy, fw, fh]);
    lemma_parse_signed_decimal(p.x as int, 0x7fff_ffff);
    lemma_parse_signed_decimal(p.y as int, 0x7fff_ffff);
    lemma_parse_unsigned_decimal(p.width as nat, 0xffff_ffff);
    lemma_parse_unsigned_decimal(p.height as nat, 0xffff_ffff);
}

/// A number written out holds no comma.
proof fn lemma_no_comma_in_number(n: int)
    ensures
        !signed_decimal(n).contains(','),
        n >= 0 ==> signed_decimal(n) == decimal_digits(n as nat),
{
    let s = signed_decimal(n);
    let m = if n < 0 {
        (-n) as nat
    } else {
        n as nat
    };
    crate::text::lemma_decimal_digits(m);
    if s.contains(',') {
        let k = choose|k: int| 0 <= k < s.len() && s[k] == ',';
        if n < 0 {
            if k > 0 {
                assert(s[k] == decimal_digits(m)[k - 1]);
                assert(crate::text::is_digit(decimal_digits(m)[k - 1]));
            }
        } else {
            assert(crate::text::is_digit(decimal_digits(m)[k]));
        }
    }
}

/// What the placement tracker knows: the latest placement seen, the one last
/// written, and when the latest one arrived while it is still unwritten.
#[derive(Clone, Copy, Debug, PartialEq, Eq, Structural)]
pub struct TrackerModel {
    pub latest: Option<WindowPlacement>,
    pub saved: Option<WindowPlacement>,
    pub changed_at: Option<u64>,
}

/// What the caller of `PlacementTracker::observe` is to do next.
#[derive(Clone, Copy, Debug, PartialEq, Eq, Structural)]
pub enum PlacementAction {
    /// Nothing has changed that needs acting on.
    Nothing,
    /// The window moved or was resized: the new placement has been published
    /// to the shared slot, for whoever reads it from another thread.
    Publish(WindowPlacement),
    /// The window has stayed put long enough: write this placement, and
    /// report it with `record_saved` once the write succeeded.
    Save(WindowPlacement),
}

/// One observation of the window at `now` nanoseconds.
pub open spec fn observe_step(m: TrackerModel, placement: WindowPlacement, now: u64) -> (
    TrackerModel,
    PlacementAction,
) {
    if m.latest != Some(placement) {
        (
            TrackerModel { latest: Some(placement), changed_at: Some(now), ..m },
            PlacementAction::Publish(placement),
        )
    } else if m.saved != m.latest && m.changed_at is Some && now >= m.changed_at->0
        + SAVE_DELAY_NANOS {
        (m, PlacementAction::Save(placement))
    } else {
        (m, PlacementAction::Nothing)
    }
}

/// The tracker after `placement` was written.
pub open spec fn saved_step(m: TrackerModel, placement: WindowPlacement) -> TrackerModel {
    TrackerModel { saved: Some(placement), changed_at: None, ..m }
}

/// The placement that is seen but not written yet, if any.
pub open spec fn unsaved(m: TrackerModel) -> Option<WindowPlacement> {
    if m.saved != m.latest {
        m.latest
    } else {
        None
    }
}

/// Decides when the window's placement is written back.
///
/// Moving or resizing the window publishes the new placement at once, to a
/// slot that `shared` hands out, but writes it only after it has stayed the
/// same for `SAVE_DELAY_NANOS`. The writing itself is the caller's: `observe`
/// and `flush` say what to write, and `record_saved` reports a successful
/// write.
pub struct PlacementTracker {
    latest: Option<WindowPlacement>,
    saved: Option<WindowPlacement>,
    changed_at: Option<u64>,
    shared: SharedPlacement,
}

impl View for PlacementTracker {
    type V = TrackerModel;

    closed spec fn view(&self) -> TrackerModel {
        TrackerModel { latest: self.latest, saved: self.saved, changed_at: self.changed_at }
    }
}

impl PlacementTracker {
    /// The slot this tracker publishes to.
    pub closed spec fn slot(&self) -> SharedPlacement {
        self.shared
    }

    /// A tracker for a window opened at the placement that was last written,
    /// with that placement already published.
    pub fn new(saved: Option<WindowPlacement>) -> (tracker: Self)
        ensures
            tracker@ == (TrackerModel { latest: saved, saved: saved, changed_at: None }),
            tracker.slot().filled() == saved is Some,
    {
        PlacementTracker { latest: saved, saved, changed_at: None, shared: SharedPlacement::new(saved) }
    }

    /// Another handle to the slot this tracker publishes to.
    pub fn shared(&self) -> (shared: SharedPlacement)
        ensures
            shared == self.slot(),
    {
        self.shared.clone()
    }

    /// Takes in the window's placement as seen at `now` nanoseconds and says
    /// what to do about it.
    pub fn observe(&mut self, placement: WindowPlacement, now: u64) -> (action: PlacementAction)
        ensures
            (final(self)@, action) == observe_step(old(self)@, placement, now),
            final(self).slot() == old(self).slot(),
    {
        if self.latest != Some(placement) {
            self.latest = Some(placement);
            self.changed_at = Some(now);
            self.shared.update(placement);
            return PlacementAction::Publish(placement);
        }
        if self.saved != self.latest {
            if let Some(changed_at) = self.changed_at {
                if now >= changed_at && now - changed_at >= SAVE_DELAY_NANOS {
                    return PlacementAction::Save(placement);
                }
            }
        }
        PlacementAction::Nothing
    }

    /// The placement that flushing writes: the latest one, when it is not
    /// the one last written.
    pub fn flush(&self) -> (placement: Option<WindowPlacement>)
        ensures
            placement == unsaved(self@),
    {
        if self.saved != self.latest {
            self.latest
        } else {
            None
        }
    }

    /// Records that `placement` was written.
    pub fn record_saved(&mut self, placement: WindowPlacement)
        ensures
            final(self)@ == saved_step(old(self)@, placement),
            final(self).slot() == old(self).slot(),
    {
        self.saved = Some(placement);
        self.changed_at = None;
    }
}

/// A window that moves to a new placement and then stays there is written
/// once it has stayed for `SAVE_DELAY_NANOS`, and not before; if it came back
/// to the placement last written, nothing is written at all.
pub proof fn lemma_still_window_is_saved(
    m: TrackerModel,
    placement: WindowPlacement,
    moved_at: u64,
    now: u64,
)
    requires
        m.latest != Some(placement),
    ensures
        ({
            let (moved, first) = observe_step(m, placement, moved_at);
            let (after, second) = observe_step(moved, placement, now);
            &&& first == PlacementAction::Publish(placement)
            &&& after == moved
            &&& second == if m.saved == Some(placement) {
                PlacementAction::Nothing
            } else if now >= moved_at + SAVE_DELAY_NANOS {
                PlacementAction::Save(placement)
            } else {
                PlacementAction::Nothing
            }
        }),
{
}

/// Once the latest placement is written, seeing it again writes nothing and
/// leaves nothing to flush.
pub proof fn lemma_written_placement_is_not_rewritten(
    m: TrackerModel,
    placement: WindowPlacement,
    now: u64,
)
    requires
        m.latest == Some(placement),
    ensures
        ({
            let written = saved_step(m, placement);
            &&& observe_step(written, placement, now) == (written, PlacementAction::Nothing)
            &&& unsaved(written) is None
        }),
{
}

/// A stored placement that is not valid UTF-16.
#[derive(Clone, Copy, Debug, PartialEq, Eq, Structural)]
pub struct InvalidUtf16;

/// What a placement read from the registry as the UTF-16 buffer `buffer`
/// comes to: the text before the first zero, decoded and parsed.
pub open spec fn registry_placement(buffer: Seq<u16>) -> Result<
    Option<WindowPlacement>,
    InvalidUtf16,
> {
    match decode_utf16(until_nul(buffer)) {
        Some(text) => Ok(parse_placement(text)),
        None => Err(InvalidUtf16),
    }
}

impl WindowPlacement {
    /// The zero-terminated UTF-16 buffer this placement is written to the
    /// registry as.
    pub fn to_registry_value(self) -> (units: Vec<u16>)
        ensures
            units@ == encode_utf16(encoded(self)).push(0u16),
    {
        let text = self.encode();
        wide(text.as_str())
    }
}

/// Reads a placement back from the UTF-16 buffer the registry handed over.
pub fn from_registry_value(buffer: &[u16]) -> (placement: Result<
    Option<WindowPlacement>,
    InvalidUtf16,
>)
    ensures
        placement == registry_placement(buffer@),
{
    let end = find_nul(buffer);
    match decode_range(buffer, end) {
        Some(chars) => Ok(parse_chars(&chars)),
        None => Err(InvalidUtf16),
    }
}

/// Every character of a written number is a digit or a minus sign.
proof fn lemma_number_chars(n: int)
    ensures
        forall|k: int|
            0 <= k < signed_decimal(n).len() ==> crate::text::is_digit(#[trigger] signed_decimal(n)[k])
                || signed_decimal(n)[k] == '-',
{
    let m = if n < 0 {
        (-n) as nat
    } else {
        n as nat
    };
    crate::text::lemma_decimal_digits(m);
    assert forall|k: int| 0 <= k < signed_decimal(n).len() implies crate::text::is_digit(
        #[trigger] signed_decimal(n)[k],
    ) || signed_decimal(n)[k] == '-' by {
        if n < 0 && k > 0 {
            assert(signed_decimal(n)[k] == decimal_digits(m)[k - 1]);
        }
    }
}

/// What is written to the registry reads back as the same placement.
pub proof fn lemma_registry_round_trip(p: WindowPlacement)
    ensures
        registry_placement(encode_utf16(encoded(p)).push(0u16)) == Ok::<
            Option<WindowPlacement>,
            InvalidUtf16,
        >(Some(p)),
{
    let text = encoded(p);
    lemma_number_chars(p.x as int);
    lemma_number_chars(p.y as int);
    lemma_number_chars(p.width as int);
    lemma_number_chars(p.height as int);
    lemma_no_comma_in_number(p.width as int);
    lemma_no_comma_in_number(p.height as int);
    let fx = signed_decimal(p.x as int);
    let fy = signed_decimal(p.y as int);
    let fw = signed_decimal(p.width as int);
    let fh = signed_decimal(p.height as int);
    assert(text =~= fx + seq![','] + fy + seq![','] + fw + seq![','] + fh);
    assert(!text.contains('\0')) by {
        if text.contains('\0') {
            let k = choose|k: int| 0 <= k < text.len() && text[k] == '\0';
            if k < fx.len() {
                assert(text[k] == fx[k]);
            } else if k == fx.len() {
            } else if k < fx.len() + 1 + fy.len() {
                assert(text[k] == fy[k - fx.len() - 1]);
            } else if k == fx.len() + 1 + fy.len() {
            } else if k < fx.len() + 2 + fy.len() + fw.len() {
                assert(text[k] == fw[k - fx.len() - 2 - fy.len()]);
            } else if k == fx.len() + 2 + fy.len() + fw.len() {
            } else {
                assert(text[k] == fh[k - fx.len() - 3 - fy.len() - fw.len()]);
            }
        }
    }
    lemma_encode_has_no_nul(text);
    lemma_until_nul_of_terminated(encode_utf16(text));
    lemma_decode_encode(text);
    lemma_encode_round_trip(p);
}

/// What the shared slot may hold: once it has held a placement, always one.
pub struct SlotInvariant {
    pub filled: bool,
}

impl RwLockPredicate<Option<WindowPlacement>> for SlotInvariant {
    open spec fn inv(self, v: Option<WindowPlacement>) -> bool {
        self.filled ==> v is Some
    }
}

/// The latest placement, readable from another thread.
///
/// The tray's quit handler runs on a thread of its own and writes the
/// placement out before the process exits, while the window keeps publishing
/// new ones. What a read returns depends on what other threads have written
/// by then, so the contracts say only what holds of every outcome: a slot that
/// was given a placement never goes back to holding none.
pub struct SharedPlacement {
    slot: Arc<RwLock<Option<WindowPlacement>, SlotInvariant>>,
}

/// `Arc::clone`: a second handle to the same allocation, so it holds the very
/// value the first one does.
#[verifier::external_body]
fn share<T>(handle: &Arc<T>) -> (copy: Arc<T>)
    ensures
        copy == *handle,
{
    Arc::clone(handle)
}

impl Clone for SharedPlacement {
    /// Another handle to the same slot.
    fn clone(&self) -> (copy: Self)
        ensures
            copy == *self,
    {
        SharedPlacement { slot: share(&self.slot) }
    }
}

impl SharedPlacement {
    /// Whether the slot has held a placement from the start.
    pub closed spec fn filled(&self) -> bool {
        self.slot.pred().filled
    }

    pub fn new(initial: Option<WindowPlacement>) -> (shared: Self)
        ensures
            shared.filled() == initial is Some,
    {
        let filled = Ghost(SlotInvariant { filled: initial is Some });
        SharedPlacement { slot: Arc::new(RwLock::new(initial, filled)) }
    }

    /// Publishes `placement` as the latest.
    pub fn update(&self, placement: WindowPlacement) {
        let (_previous, handle) = self.slot.acquire_write();
        handle.release_write(Some(placement));
    }

    /// The latest placement published, if any.
    pub fn latest(&self) -> (placement: Option<WindowPlacement>)
        ensures
            self.filled() ==> placement is Some,
    {
        let handle = self.slot.acquire_read();
        let placement = *handle.borrow();
        handle.release_read();
        placement
    }
}

} // verus!
