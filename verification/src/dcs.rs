//! The Device Control String around a SIXEL image: introducer,
//! parameters, payload and string terminator.

use crate::canvas::larger;
use crate::error::{malformed_data, malformed_error, ErrorView, SixelError};
use crate::params::{capped, digit_value, is_digit};
use vstd::prelude::*;
use vstd::slice::slice_subrange;

verus! {

/// Number of parameters that the introducer keeps.
pub const DCS_PARAM_MAX: usize = 16;

/// A parsed Device Control String as a mathematical value.
pub struct Envelope {
    pub aspect_ratio: Option<u16>,
    pub zero_color: Option<u16>,
    pub grid_size: Option<u16>,
    pub payload: Seq<u8>,
}

/// The index just past the first introducer at or after `idx`: the byte
/// `0x90`, or `ESC` followed by `P`.
pub open spec fn introducer_end(data: Seq<u8>, idx: int) -> Option<int>
    decreases data.len() - idx,
{
    if idx < 0 || idx >= data.len() {
        None
    } else if data[idx] == 0x90 {
        Some(idx + 1)
    } else if data[idx] == 0x1b && idx + 1 < data.len() && data[idx + 1] == 0x50 {
        Some(idx + 2)
    } else {
        introducer_end(data, idx + 1)
    }
}

/// `params` with `value` added, unless sixteen are there already.
pub open spec fn push_limited(params: Seq<u16>, value: u16) -> Seq<u16> {
    if params.len() < DCS_PARAM_MAX {
        params.push(value)
    } else {
        params
    }
}

/// The parameters between an introducer and `q`, and the index just
/// past the `q`; `None` where `ESC` or `0x9C` comes first. `current` is
/// the value of the digits of the parameter being read, `has_digit`
/// whether it has any, `params` those already complete. Digits extend
/// the parameter, up to 65535; `;` completes it; other bytes are passed
/// over. Where the data ends before a `q`, the parameter being read is
/// dropped.
pub open spec fn scan_header(
    data: Seq<u8>,
    idx: int,
    current: u16,
    has_digit: bool,
    params: Seq<u16>,
) -> Option<(Seq<u16>, int)>
    decreases data.len() - idx,
{
    if idx < 0 || idx >= data.len() {
        Some((params, idx))
    } else if is_digit(data[idx]) {
        scan_header(
            data,
            idx + 1,
            capped(current * 10 + digit_value(data[idx]), u16::MAX as int) as u16,
            true,
            params,
        )
    } else if data[idx] == 0x3b {
        scan_header(data, idx + 1, 0, false, push_limited(params, current))
    } else if data[idx] == 0x71 {
        if has_digit || params.len() > 0 {
            Some((push_limited(params, current), idx + 1))
        } else {
            Some((params, idx + 1))
        }
    } else if data[idx] == 0x1b || data[idx] == 0x9c {
        None
    } else {
        scan_header(data, idx + 1, current, has_digit, params)
    }
}

/// Whether a string terminator begins at `idx`: the byte `0x9C`, or
/// `ESC` followed by a backslash.
pub open spec fn terminator_at(data: Seq<u8>, idx: int) -> bool {
    0 <= idx < data.len() && (data[idx] == 0x9c || (data[idx] == 0x1b && idx + 1 < data.len()
        && data[idx + 1] == 0x5c))
}

/// The index of the first string terminator at or after `idx`, or the
/// length of the data where there is none.
pub open spec fn payload_end(data: Seq<u8>, idx: int) -> int
    decreases data.len() - idx,
{
    if idx < 0 || idx >= data.len() {
        data.len() as int
    } else if terminator_at(data, idx) {
        idx
    } else {
        payload_end(data, idx + 1)
    }
}

/// Parameter `k` of a header, where it was given.
pub open spec fn header_param(params: Seq<u16>, k: int) -> Option<u16> {
    if 0 <= k < params.len() {
        Some(params[k])
    } else {
        None
    }
}

/// The Device Control String whose parameters begin at `idx`.
pub open spec fn parse_dcs_spec(data: Seq<u8>, idx: int) -> Result<Envelope, ErrorView> {
    if idx > data.len() {
        Err(malformed_data())
    } else {
        match scan_header(data, idx, 0, false, Seq::empty()) {
            None => Err(malformed_data()),
            Some((params, start)) => Ok(
                Envelope {
                    aspect_ratio: header_param(params, 0),
                    zero_color: header_param(params, 1),
                    grid_size: header_param(params, 2),
                    payload: data.subrange(start, payload_end(data, start)),
                },
            ),
        }
    }
}

/// What `data` holds: the first Device Control String in it, or, where
/// it has no introducer, all of it as a payload without parameters.
pub open spec fn parse_spec(data: Seq<u8>) -> Result<Envelope, ErrorView> {
    match introducer_end(data, 0) {
        Some(idx) => parse_dcs_spec(data, idx),
        None => Ok(
            Envelope { aspect_ratio: None, zero_color: None, grid_size: None, payload: data },
        ),
    }
}

/// `data` without the string terminator at its end, if it has one.
pub open spec fn strip_terminator(data: Seq<u8>) -> Seq<u8> {
    if data.len() >= 2 && data[data.len() - 2] == 0x1b && data[data.len() - 1] == 0x5c {
        data.subrange(0, data.len() - 2)
    } else if data.len() >= 1 && data[data.len() - 1] == 0x9c {
        data.subrange(0, data.len() - 1)
    } else {
        data
    }
}

/// Vertical part of the pixel shape that the first parameter selects.
pub open spec fn aspect_pad(aspect: Option<u16>) -> int {
    match aspect {
        None => 1,
        Some(ar) => if ar <= 1 {
            2
        } else if ar == 2 {
            5
        } else if ar <= 4 {
            4
        } else if ar <= 6 {
            3
        } else if ar <= 8 {
            2
        } else {
            1
        },
    }
}

/// One part of the pixel shape scaled by the grid size in tenths, zero
/// standing for ten; never less than 1.
pub open spec fn scale_aspect(value: int, grid: Option<u16>) -> int {
    match grid {
        None => value,
        Some(g) => {
            let tenths: int = if g == 0 {
                10
            } else {
                g as int
            };
            larger(1, (value * tenths) / 10)
        },
    }
}

/// The pixel shape `(pan, pad)` that the first and third parameter give.
pub open spec fn pixel_aspect_spec(aspect: Option<u16>, grid: Option<u16>) -> (int, int) {
    (scale_aspect(2, grid), scale_aspect(aspect_pad(aspect), grid))
}

/// The parameters of a Device Control String and its payload.
pub struct AnsiPayload<'a> {
    pub aspect_ratio: Option<u16>,
    pub zero_color: Option<u16>,
    pub grid_size: Option<u16>,
    pub payload: &'a [u8],
}

impl<'a> View for AnsiPayload<'a> {
    type V = Envelope;

    open spec fn view(&self) -> Envelope {
        Envelope {
            aspect_ratio: self.aspect_ratio,
            zero_color: self.zero_color,
            grid_size: self.grid_size,
            payload: self.payload@,
        }
    }
}

impl<'a> AnsiPayload<'a> {
    /// Finds the first Device Control String in `bytes` and takes it
    /// apart. Bytes before the introducer are passed over. Without an
    /// introducer all of `bytes` is the payload.
    pub fn parse(bytes: &'a [u8]) -> (out: Result<AnsiPayload<'a>, SixelError>)
        ensures
            match parse_spec(bytes@) {
                Ok(env) => out matches Ok(p) && p@ == env,
                Err(e) => out matches Err(x) && x@ == e,
            },
    {
        let mut idx: usize = 0;
        while idx < bytes.len()
            invariant
                idx <= bytes@.len(),
                introducer_end(bytes@, 0) == introducer_end(bytes@, idx as int),
            decreases bytes@.len() - idx,
        {
            if bytes[idx] == 0x90 {
                return Self::parse_dcs(bytes, idx + 1);
            }
            if bytes[idx] == 0x1b && idx + 1 < bytes.len() && bytes[idx + 1] == 0x50 {
                return Self::parse_dcs(bytes, idx + 2);
            }
            idx += 1;
        }
        Ok(AnsiPayload { aspect_ratio: None, zero_color: None, grid_size: None, payload: bytes })
    }

    /// Takes apart the Device Control String whose parameters begin at
    /// `start`: up to sixteen parameters, `q`, then the payload up to the
    /// string terminator or the end. Fails where `ESC` or `0x9C` stands
    /// before the `q`, or `start` is past the end.
    pub fn parse_dcs(bytes: &'a [u8], start: usize) -> (out: Result<AnsiPayload<'a>, SixelError>)
        ensures
            match parse_dcs_spec(bytes@, start as int) {
                Ok(env) => out matches Ok(p) && p@ == env,
                Err(e) => out matches Err(x) && x@ == e,
            },
    {
        if start > bytes.len() {
            return Err(malformed_error());
        }
        let mut idx: usize = start;
        let mut params: [u16; 16] = [0u16; 16];
        let mut param_count: usize = 0;
        let mut current: u16 = 0;
        let mut has_digit: bool = false;
        let mut seen_q: bool = false;
        assert(params@.subrange(0, 0) =~= Seq::<u16>::empty());
        while idx < bytes.len() && !seen_q
            invariant
                start <= idx <= bytes@.len(),
                param_count <= 16,
                !seen_q ==> scan_header(bytes@, start as int, 0, false, Seq::empty())
                    == scan_header(
                    bytes@,
                    idx as int,
                    current,
                    has_digit,
                    params@.subrange(0, param_count as int),
                ),
                seen_q ==> scan_header(bytes@, start as int, 0, false, Seq::empty()) == Some(
                    (params@.subrange(0, param_count as int), idx as int),
                ),
            decreases bytes@.len() - idx,
        {
            let ghost so_far = params@.subrange(0, param_count as int);
            let b: u8 = bytes[idx];
            if b >= 0x30 && b <= 0x39 {
                let wide: u32 = (current as u32) * 10 + ((b - 0x30) as u32);
                current = if wide > 0xffff {
                    0xffff
                } else {
                    wide as u16
                };
                has_digit = true;
                idx += 1;
            } else if b == 0x3b {
                if param_count < 16 {
                    params[param_count] = current;
                    param_count += 1;
                }
                assert(params@.subrange(0, param_count as int) =~= push_limited(so_far, current));
                current = 0;
                has_digit = false;
                idx += 1;
            } else if b == 0x71 {
                if param_count < 16 && (has_digit || param_count > 0) {
                    params[param_count] = current;
                    param_count += 1;
                    assert(params@.subrange(0, param_count as int) =~= push_limited(
                        so_far,
                        current,
                    ));
                } else {
                    assert(params@.subrange(0, param_count as int) =~= so_far);
                }
                idx += 1;
                seen_q = true;
            } else if b == 0x1b || b == 0x9c {
                return Err(malformed_error());
            } else {
                idx += 1;
            }
        }
        let payload_start: usize = idx;
        let mut cursor: usize = payload_start;
        let mut found: bool = false;
        while cursor < bytes.len() && !found
            invariant
                payload_start <= cursor <= bytes@.len(),
                payload_end(bytes@, payload_start as int) == payload_end(bytes@, cursor as int),
                found ==> terminator_at(bytes@, cursor as int),
            decreases bytes@.len() - cursor + (if found { 0int } else { 1int }),
        {
            if bytes[cursor] == 0x9c {
                found = true;
            } else if bytes[cursor] == 0x1b && cursor + 1 < bytes.len() && bytes[cursor + 1]
                == 0x5c {
                found = true;
            } else {
                cursor += 1;
            }
        }
        let payload_end: usize = cursor;
        let aspect_ratio = if param_count > 0 {
            Some(params[0])
        } else {
            None
        };
        let zero_color = if param_count > 1 {
            Some(params[1])
        } else {
            None
        };
        let grid_size = if param_count > 2 {
            Some(params[2])
        } else {
            None
        };
        Ok(
            AnsiPayload {
                aspect_ratio,
                zero_color,
                grid_size,
                payload: slice_subrange(bytes, payload_start, payload_end),
            },
        )
    }
}

/// Removes the string terminator from the end of `data`, if there is
/// one: `ESC` and a backslash, or the byte `0x9C`.
pub fn strip_string_terminator<'a>(data: &'a [u8]) -> (out: &'a [u8])
    ensures
        out@ == strip_terminator(data@),
{
    let n: usize = data.len();
    if n >= 2 && data[n - 2] == 0x1b && data[n - 1] == 0x5c {
        slice_subrange(data, 0, n - 2)
    } else if n >= 1 && data[n - 1] == 0x9c {
        slice_subrange(data, 0, n - 1)
    } else {
        data
    }
}

/// The three parameters of a Device Control String that matter to the
/// decoder.
#[derive(Clone, Copy)]
pub struct DcsSettings {
    pub aspect_ratio: Option<u16>,
    pub zero_color: Option<u16>,
    pub grid_size: Option<u16>,
}

impl DcsSettings {
    /// Settings of the three parameters as given.
    pub fn new(aspect_ratio: Option<u16>, zero_color: Option<u16>, grid_size: Option<u16>) -> (out:
        DcsSettings)
        ensures
            out.aspect_ratio == aspect_ratio,
            out.zero_color == zero_color,
            out.grid_size == grid_size,
    {
        DcsSettings { aspect_ratio, zero_color, grid_size }
    }
}

/// The pixel shape `(pan, pad)` that the first and third parameter of a
/// Device Control String give.
pub fn pixel_aspect(aspect: Option<u16>, grid: Option<u16>) -> (out: (usize, usize))
    ensures
        (out.0 as int, out.1 as int) == pixel_aspect_spec(aspect, grid),
        1 <= out.0 <= 13107,
        1 <= out.1 <= 32767,
{
    let mut pan: usize = 2;
    let mut pad: usize = match aspect {
        None => 1,
        Some(ar) => if ar <= 1 {
            2
        } else if ar == 2 {
            5
        } else if ar <= 4 {
            4
        } else if ar <= 6 {
            3
        } else if ar <= 8 {
            2
        } else {
            1
        },
    };
    match grid {
        None => {},
        Some(g) => {
            let tenths: usize = if g == 0 {
                10
            } else {
                g as usize
            };
            pan = (pan * tenths) / 10;
            pad = (pad * tenths) / 10;
            if pan < 1 {
                pan = 1;
            }
            if pad < 1 {
                pad = 1;
            }
        },
    }
    (pan, pad)
}

} // verus!
