//! Screen capture geometry, the capture backend and error vocabulary, live preview
//! sizing, and the base64 text of captured pixels.

use vstd::prelude::*;

use base64::Engine;

use crate::text::{decimal, push_decimal, push_str, str_eq};

verus! {

/// Which native path produced a captured frame.
#[derive(Clone, Copy, Debug, PartialEq, Eq, Structural)]
pub enum CaptureBackend {
    Gdi,
    DesktopDuplication,
}

/// Wire name of a capture backend.
pub open spec fn backend_name(backend: CaptureBackend) -> Seq<char> {
    match backend {
        CaptureBackend::Gdi => "gdi"@,
        CaptureBackend::DesktopDuplication => "desktop_duplication"@,
    }
}

impl CaptureBackend {
    /// The name under which the backend is serialised and logged.
    pub fn as_str(self) -> (name: &'static str)
        ensures
            name@ == backend_name(self),
    {
        match self {
            CaptureBackend::Gdi => "gdi",
            CaptureBackend::DesktopDuplication => "desktop_duplication",
        }
    }
}

/// Reads a recorded backend name: only "desktop_duplication" names that backend,
/// anything else is taken to be GDI.
pub open spec fn backend_from_name(name: Seq<char>) -> CaptureBackend {
    if name == "desktop_duplication"@ {
        CaptureBackend::DesktopDuplication
    } else {
        CaptureBackend::Gdi
    }
}

/// Parses the capture backend stored with a recorded live frame.
pub fn parse_capture_backend(value: &str) -> (backend: CaptureBackend)
    ensures
        backend == backend_from_name(value@),
{
    if str_eq(value, "desktop_duplication") {
        CaptureBackend::DesktopDuplication
    } else {
        CaptureBackend::Gdi
    }
}

/// A backend's recorded name reads back as the same backend.
pub proof fn lemma_backend_name_roundtrip(backend: CaptureBackend)
    ensures
        backend_from_name(backend_name(backend)) == backend,
{
    reveal_strlit("gdi");
    reveal_strlit("desktop_duplication");
    assert("gdi"@.len() != "desktop_duplication"@.len());
}

/// Why a capture could not produce a frame.
#[derive(Clone, Copy, Debug, PartialEq, Eq)]
pub enum CaptureError {
    InvalidScreenSize([u32; 2]),
    NativeCallFailed(&'static str),
    BackendUnavailable(&'static str),
    UnsupportedPlatform(&'static str),
    CaptureTimedOut,
}

/// The human-readable text of a capture error.
pub open spec fn capture_error_text(error: CaptureError) -> Seq<char> {
    match error {
        CaptureError::InvalidScreenSize(size) => "invalid screen size: "@ + decimal(size[0] as nat)
            + "x"@ + decimal(size[1] as nat),
        CaptureError::NativeCallFailed(call) => call@ + " failed"@,
        CaptureError::BackendUnavailable(message) => message@,
        CaptureError::UnsupportedPlatform(message) => message@,
        CaptureError::CaptureTimedOut => "screen capture timed out"@,
    }
}

impl CaptureError {
    /// Renders the error the way it is shown to the user and written to logs.
    pub fn message(&self) -> (text: String)
        ensures
            text@ == capture_error_text(*self),
    {
        let mut text = String::new();
        match self {
            CaptureError::InvalidScreenSize(size) => {
                push_str(&mut text, "invalid screen size: ");
                push_decimal(&mut text, size[0] as u128);
                push_str(&mut text, "x");
                push_decimal(&mut text, size[1] as u128);
            },
            CaptureError::NativeCallFailed(call) => {
                push_str(&mut text, call);
                push_str(&mut text, " failed");
            },
            CaptureError::BackendUnavailable(message) => {
                push_str(&mut text, message);
            },
            CaptureError::UnsupportedPlatform(message) => {
                push_str(&mut text, message);
            },
            CaptureError::CaptureTimedOut => {
                push_str(&mut text, "screen capture timed out");
            },
        }
        text
    }
}

/// Rounds the non-negative rational `a / b` to the nearest integer, halves away from zero.
pub open spec fn round_div(a: nat, b: nat) -> nat
    recommends
        b > 0,
{
    (2 * a + b) / (2 * b)
}

/// The size of a frame scaled to fit `max_frame_size` (each bound raised to at least 1)
/// while keeping the screen's aspect ratio and never upscaling.
pub open spec fn scaled_size(screen_size: [u32; 2], max_frame_size: [u32; 2]) -> (nat, nat) {
    let sw = screen_size[0] as nat;
    let sh = screen_size[1] as nat;
    let mw: nat = if max_frame_size[0] == 0 { 1 } else { max_frame_size[0] as nat };
    let mh: nat = if max_frame_size[1] == 0 { 1 } else { max_frame_size[1] as nat };
    if mw >= sw && mh >= sh {
        (sw, sh)
    } else if mw * sh <= mh * sw {
        let h = round_div(mw * sh, sw);
        (mw, if h == 0 { 1 } else { h })
    } else {
        let w = round_div(mh * sw, sh);
        (if w == 0 { 1 } else { w }, mh)
    }
}

proof fn lemma_round_div_close(a: nat, b: nat)
    requires
        b > 0,
    ensures
        2 * b * round_div(a, b) <= 2 * a + b,
        2 * a + b < 2 * b * round_div(a, b) + 2 * b,
{
    let q = round_div(a, b);
    let x = (2 * a + b) as int;
    let d = (2 * b) as int;
    vstd::arithmetic::div_mod::lemma_fundamental_div_mod(x, d);
    vstd::arithmetic::div_mod::lemma_mod_pos_bound(x, d);
    assert(q == x / d);
    assert(d * q <= x) by (nonlinear_arith)
        requires x == d * (x / d) + (x % d), 0 <= x % d, q == x / d;
    assert(x < d * q + d) by (nonlinear_arith)
        requires x == d * (x / d) + (x % d), x % d < d, q == x / d;
}

/// Scaling a non-empty screen gives a frame of at least one pixel per side that
/// fits inside both the screen and the (at-least-one) bounds, is the screen itself
/// when the screen already fits, and keeps the screen's aspect ratio up to the
/// rounding of one side: `|w * sh - h * sw| <= max(sw, sh)`.
#[verifier::spinoff_prover]
#[verifier::rlimit(30)]
pub proof fn lemma_scaled_size_fits(screen_size: [u32; 2], max_frame_size: [u32; 2])
    requires
        screen_size[0] > 0,
        screen_size[1] > 0,
    ensures
        ({
            let (w, h) = scaled_size(screen_size, max_frame_size);
            let sw = screen_size[0] as nat;
            let sh = screen_size[1] as nat;
            let mw: nat = if max_frame_size[0] == 0 { 1 } else { max_frame_size[0] as nat };
            let mh: nat = if max_frame_size[1] == 0 { 1 } else { max_frame_size[1] as nat };
            &&& 1 <= w <= sw
            &&& 1 <= h <= sh
            &&& w <= mw
            &&& h <= mh
            &&& (mw >= sw && mh >= sh) ==> (w == sw && h == sh)
            &&& -(if sw >= sh { sw as int } else { sh as int }) <= w * sh - h * sw
                <= (if sw >= sh { sw as int } else { sh as int })
        }),
{
    let sw = screen_size[0] as nat;
    let sh = screen_size[1] as nat;
    let mw: nat = if max_frame_size[0] == 0 { 1 } else { max_frame_size[0] as nat };
    let mh: nat = if max_frame_size[1] == 0 { 1 } else { max_frame_size[1] as nat };
    if mw >= sw && mh >= sh {
        assert(scaled_size(screen_size, max_frame_size) == (sw, sh));
        assert(sw * sh - sh * sw == 0) by (nonlinear_arith);
    } else if mw * sh <= mh * sw {
        let q = round_div(mw * sh, sw);
        lemma_round_div_close(mw * sh, sw);
        // mw < sw here: otherwise mw >= sw forces mh >= sh through the cross products.
        assert(mw < sw) by (nonlinear_arith)
            requires mw * sh <= mh * sw, !(mw >= sw && mh >= sh), sw > 0, sh > 0;
        assert(q <= mh) by (nonlinear_arith)
            requires 2 * sw * q <= 2 * (mw * sh) + sw, mw * sh <= mh * sw, sw > 0;
        assert(q <= sh) by (nonlinear_arith)
            requires 2 * sw * q <= 2 * (mw * sh) + sw, mw < sw, sw > 0, sh > 0;
        let h: nat = if q == 0 { 1 } else { q };
        assert(-(sw as int) <= mw * sh - h * sw <= sw) by (nonlinear_arith)
            requires
                2 * sw * q <= 2 * (mw * sh) + sw,
                2 * (mw * sh) + sw < 2 * sw * q + 2 * sw,
                h == (if q == 0 { 1 } else { q }),
                sw > 0;
        assert(scaled_size(screen_size, max_frame_size) == (mw, h));
        let m: int = if sw >= sh { sw as int } else { sh as int };
        assert(-m <= mw * sh - h * sw <= m);
    } else {
        let q = round_div(mh * sw, sh);
        lemma_round_div_close(mh * sw, sh);
        assert(mh < sh) by (nonlinear_arith)
            requires mh * sw < mw * sh, !(mw >= sw && mh >= sh), sw > 0, sh > 0;
        assert(q <= mw) by (nonlinear_arith)
            requires 2 * sh * q <= 2 * (mh * sw) + sh, mh * sw < mw * sh, sh > 0;
        assert(q <= sw) by (nonlinear_arith)
            requires 2 * sh * q <= 2 * (mh * sw) + sh, mh < sh, sw > 0, sh > 0;
        let w: nat = if q == 0 { 1 } else { q };
        assert(-(sh as int) <= w * sh - mh * sw <= sh) by (nonlinear_arith)
            requires
                2 * sh * q <= 2 * (mh * sw) + sh,
                2 * (mh * sw) + sh < 2 * sh * q + 2 * sh,
                w == (if q == 0 { 1 } else { q }),
                sh > 0;
        assert(scaled_size(screen_size, max_frame_size) == (w, mh));
        let m: int = if sw >= sh { sw as int } else { sh as int };
        assert(-m <= w * sh - mh * sw <= m);
    }
}

fn round_div_exec(a: u128, b: u128) -> (q: u128)
    requires
        b > 0,
        a <= 0xffff_ffff_ffff_ffff_ffff,
        b <= 0xffff_ffff,
    ensures
        q == round_div(a as nat, b as nat),
{
    (2 * a + b) / (2 * b)
}

/// Scales `screen_size` down to fit `max_frame_size`, keeping the aspect ratio.
/// A zero bound counts as one; the result is never larger than the screen and
/// never smaller than one pixel on either side.
pub fn scaled_frame_size(
    screen_size: [u32; 2],
    max_frame_size: [u32; 2],
) -> (result: Result<[u32; 2], CaptureError>)
    ensures
        (screen_size[0] == 0 || screen_size[1] == 0) <==> result is Err,
        result is Err ==> result == Err::<[u32; 2], CaptureError>(
            CaptureError::InvalidScreenSize(screen_size),
        ),
        result matches Ok(size) ==> size[0] as nat == scaled_size(screen_size, max_frame_size).0
            && size[1] as nat == scaled_size(screen_size, max_frame_size).1,
{
    let sw = screen_size[0];
    let sh = screen_size[1];
    if sw == 0 || sh == 0 {
        return Err(CaptureError::InvalidScreenSize(screen_size));
    }
    let mw: u32 = if max_frame_size[0] == 0 { 1 } else { max_frame_size[0] };
    let mh: u32 = if max_frame_size[1] == 0 { 1 } else { max_frame_size[1] };
    if mw >= sw && mh >= sh {
        return Ok([sw, sh]);
    }
    assert((mw as u128) * (sh as u128) <= 0xffff_ffff_ffff_ffff_ffff) by (nonlinear_arith)
        requires mw <= 0xffff_ffff, sh <= 0xffff_ffff;
    assert((mh as u128) * (sw as u128) <= 0xffff_ffff_ffff_ffff_ffff) by (nonlinear_arith)
        requires mh <= 0xffff_ffff, sw <= 0xffff_ffff;
    let width_cross = (mw as u128) * (sh as u128);
    let height_cross = (mh as u128) * (sw as u128);
    assert(width_cross == (mw as nat) * (sh as nat));
    assert(height_cross == (mh as nat) * (sw as nat));
    if width_cross <= height_cross {
        // The width bound is the tighter one: the width becomes the bound exactly.
        let h = round_div_exec(width_cross, sw as u128);
        proof {
            assert(h <= mh) by (nonlinear_arith)
                requires
                    h == (2 * width_cross + sw) / (2 * sw),
                    width_cross <= height_cross,
                    height_cross == mh * sw,
                    sw > 0;
        }
        let h32: u32 = if h == 0 { 1 } else { h as u32 };
        Ok([mw, h32])
    } else {
        let w = round_div_exec(height_cross, sh as u128);
        proof {
            assert(w <= mw) by (nonlinear_arith)
                requires
                    w == (2 * height_cross + sh) / (2 * sh),
                    height_cross < width_cross,
                    width_cross == mw * sh,
                    sh > 0;
        }
        let w32: u32 = if w == 0 { 1 } else { w as u32 };
        Ok([w32, mh])
    }
}

/// Largest preview sent to the UI for a live frame.
pub const LIVE_PREVIEW_MAX_FRAME_SIZE: [u32; 2] = [640, 360];

/// The size of the UI preview of a frame of `frame_size`: the frame scaled to fit
/// 640 x 360, or 640 x 360 itself for a frame with an empty side.
pub fn live_preview_size(frame_size: [u32; 2]) -> (size: [u32; 2])
    ensures
        frame_size[0] == 0 || frame_size[1] == 0 ==> size == [640u32, 360u32],
        frame_size[0] != 0 && frame_size[1] != 0 ==> size[0] as nat == scaled_size(
            frame_size,
            [640u32, 360u32],
        ).0 && size[1] as nat == scaled_size(frame_size, [640u32, 360u32]).1,
{
    match scaled_frame_size(frame_size, LIVE_PREVIEW_MAX_FRAME_SIZE) {
        Ok(size) => size,
        Err(_) => LIVE_PREVIEW_MAX_FRAME_SIZE,
    }
}

/// A live preview is never larger than 640 x 360 nor than a non-empty frame, and a frame
/// that already fits is shown at its own size.
pub proof fn lemma_live_preview_fits(frame_size: [u32; 2])
    requires
        frame_size[0] > 0,
        frame_size[1] > 0,
    ensures
        ({
            let (w, h) = scaled_size(frame_size, [640u32, 360u32]);
            &&& 1 <= w <= 640 && w <= frame_size[0]
            &&& 1 <= h <= 360 && h <= frame_size[1]
            &&& (frame_size[0] <= 640 && frame_size[1] <= 360) ==> (w == frame_size[0] && h
                == frame_size[1])
        }),
{
    lemma_scaled_size_fits(frame_size, [640u32, 360u32]);
}

/// Whether a failed capture means the capture session is stalled or gone, so the
/// cached capturer is dropped and the next capture starts a fresh one.
pub fn drops_capturer(error: &CaptureError) -> (drop: bool)
    ensures
        drop == (*error is CaptureTimedOut || *error is BackendUnavailable),
{
    match error {
        CaptureError::CaptureTimedOut => true,
        CaptureError::BackendUnavailable(_) => true,
        _ => false,
    }
}

/// The status line of a live capture: backend, preview size and screen size.
pub open spec fn capture_status_text(
    backend: CaptureBackend,
    frame_size: [u32; 2],
    screen_size: [u32; 2],
) -> Seq<char> {
    "native Windows capture ["@ + backend_name(backend) + "]: "@ + decimal(frame_size[0] as nat)
        + "x"@ + decimal(frame_size[1] as nat) + " preview from "@ + decimal(
        screen_size[0] as nat,
    ) + "x"@ + decimal(screen_size[1] as nat) + " screen"@
}

/// Describes where a live frame came from, for the UI and the dataset records.
pub fn capture_status(backend: CaptureBackend, frame_size: [u32; 2], screen_size: [u32; 2]) -> (status:
    String)
    ensures
        status@ == capture_status_text(backend, frame_size, screen_size),
{
    let mut status = String::new();
    push_str(&mut status, "native Windows capture [");
    push_str(&mut status, backend.as_str());
    push_str(&mut status, "]: ");
    push_decimal(&mut status, frame_size[0] as u128);
    push_str(&mut status, "x");
    push_decimal(&mut status, frame_size[1] as u128);
    push_str(&mut status, " preview from ");
    push_decimal(&mut status, screen_size[0] as u128);
    push_str(&mut status, "x");
    push_decimal(&mut status, screen_size[1] as u128);
    push_str(&mut status, " screen");
    status
}

/// Character of the standard base64 alphabet (RFC 4648) for a 6-bit value.
pub open spec fn base64_char(v: nat) -> char {
    if v < 26 {
        (65 + v) as char
    } else if v < 52 {
        (97 + v - 26) as char
    } else if v < 62 {
        (48 + v - 52) as char
    } else if v == 62 {
        '+'
    } else {
        '/'
    }
}

/// Standard base64 (RFC 4648 alphabet, `=` padding) of a byte sequence: each group of
/// three bytes becomes four characters, a final short group is padded.
pub open spec fn base64_standard(bytes: Seq<u8>) -> Seq<char>
    decreases bytes.len(),
{
    if bytes.len() == 0 {
        Seq::empty()
    } else if bytes.len() == 1 {
        let b0 = bytes[0] as nat;
        seq![base64_char(b0 / 4), base64_char((b0 % 4) * 16), '=', '=']
    } else if bytes.len() == 2 {
        let b0 = bytes[0] as nat;
        let b1 = bytes[1] as nat;
        seq![base64_char(b0 / 4), base64_char((b0 % 4) * 16 + b1 / 16), base64_char((b1 % 16) * 4), '=']
    } else {
        let b0 = bytes[0] as nat;
        let b1 = bytes[1] as nat;
        let b2 = bytes[2] as nat;
        seq![
            base64_char(b0 / 4),
            base64_char((b0 % 4) * 16 + b1 / 16),
            base64_char((b1 % 16) * 4 + b2 / 64),
            base64_char(b2 % 64),
        ] + base64_standard(bytes.skip(3))
    }
}

/// Length of the padded base64 text of `len` bytes.
pub open spec fn base64_len(len: nat) -> nat {
    (len / 3) * 4 + if len % 3 > 0 { 4nat } else { 0 }
}

/// `base64::engine::general_purpose::STANDARD.encode`: the standard-alphabet, padded
/// base64 text of the bytes. The engine panics when the text length overflows
/// `usize`, so that input is excluded.
#[verifier::external_body]
fn base64_encode(bytes: &[u8]) -> (text: String)
    requires
        base64_len(bytes@.len()) <= usize::MAX,
    ensures
        text@ == base64_standard(bytes@),
{
    base64::engine::general_purpose::STANDARD.encode(bytes)
}

/// The captured RGBA pixels as base64 text, for the preview sent to the UI.
pub fn rgba_base64(rgba: &[u8]) -> (text: String)
    requires
        base64_len(rgba@.len()) <= usize::MAX,
    ensures
        text@ == base64_standard(rgba@),
{
    base64_encode(rgba)
}

proof fn lemma_base64_length(bytes: Seq<u8>)
    ensures
        base64_standard(bytes).len() == base64_len(bytes.len()),
    decreases bytes.len(),
{
    if bytes.len() >= 3 {
        lemma_base64_length(bytes.skip(3));
        assert((bytes.len() - 3) as nat / 3 == bytes.len() / 3 - 1);
        assert((bytes.len() - 3) as nat % 3 == bytes.len() % 3);
    }
}

/// Padded base64 text is four characters for every started group of three bytes.
pub proof fn lemma_base64_text_length(bytes: Seq<u8>)
    ensures
        base64_standard(bytes).len() == base64_len(bytes.len()),
        base64_standard(bytes).len() % 4 == 0,
{
    lemma_base64_length(bytes);
}

} // verus!
