//! Decoding the bytes a terminal sends for a key press: control bytes,
//! escape sequences (CSI, SS3 and the kitty keyboard protocol) and UTF-8.

use vstd::prelude::*;
use vstd::utf8::{decode_utf8, valid_utf8};
use crate::text::{split, split_by, views, Splitter, parse_u32, unsigned_decimal};
use crate::tui::input::{KeyCode, KeyEvent};

verus! {

/// The input ended in the middle of a key.
#[derive(Clone, Copy, PartialEq, Eq, Debug, Structural)]
pub enum ReadError {
    UnexpectedEof,
}

/// A key with no modifiers.
pub open spec fn plain(code: KeyCode) -> KeyEvent {
    KeyEvent { code, ctrl: false, shift: false, alt: false }
}

/// A key with Ctrl.
pub open spec fn with_ctrl(code: KeyCode) -> KeyEvent {
    KeyEvent { code, ctrl: true, shift: false, alt: false }
}

/// The modifiers of a CSI parameter: `1 + bitmask` with shift = 1, alt = 2,
/// ctrl = 4.
pub open spec fn csi_mods(code: KeyCode, param: int) -> KeyEvent {
    let bits = if param > 1 { param - 1 } else { 0 };
    KeyEvent { code, shift: bits % 2 == 1, alt: (bits / 2) % 2 == 1, ctrl: (bits / 4) % 2 == 1 }
}

/// The first character of `bytes` read as UTF-8, or `None` when they are
/// not valid UTF-8 (or empty).
pub open spec fn utf8_first(bytes: Seq<u8>) -> Option<char> {
    if valid_utf8(bytes) && decode_utf8(bytes).len() > 0 {
        Some(decode_utf8(bytes)[0])
    } else {
        None
    }
}

/// `String::from_utf8` of the bytes, then its first character:
/// `from_utf8` succeeds exactly on valid UTF-8, and `chars` yields the
/// characters it encodes, in order.
#[verifier::external_body]
fn utf8_first_char(bytes: &[u8]) -> (r: Option<char>)
    ensures
        r == utf8_first(bytes@),
{
    String::from_utf8(bytes.to_vec()).ok().and_then(|s| s.chars().next())
}

/// The single-byte keys: control codes, Backspace, and ASCII characters.
pub open spec fn byte_key(b: u8) -> KeyEvent {
    if b == 1 {
        with_ctrl(KeyCode::Char('a'))
    } else if b == 2 {
        with_ctrl(KeyCode::Char('b'))
    } else if b == 3 {
        with_ctrl(KeyCode::Char('c'))
    } else if b == 4 {
        with_ctrl(KeyCode::Char('d'))
    } else if b == 5 {
        with_ctrl(KeyCode::Char('e'))
    } else if b == 6 {
        with_ctrl(KeyCode::Char('f'))
    } else if b == 9 {
        plain(KeyCode::Tab)
    } else if b == 13 {
        plain(KeyCode::Enter)
    } else if b == 14 {
        with_ctrl(KeyCode::Char('n'))
    } else if b == 16 {
        with_ctrl(KeyCode::Char('p'))
    } else if b == 19 {
        with_ctrl(KeyCode::Char('s'))
    } else if b == 21 {
        with_ctrl(KeyCode::Char('u'))
    } else if b == 23 {
        with_ctrl(KeyCode::Char('w'))
    } else if b == 25 {
        with_ctrl(KeyCode::Char('y'))
    } else if b == 127 {
        plain(KeyCode::Backspace)
    } else {
        plain(KeyCode::Char(b as char))
    }
}

fn byte_key_exec(b: u8) -> (r: KeyEvent)
    requires
        b != 27,
        b < 0x80,
    ensures
        r == byte_key(b),
{
    if b == 1 {
        KeyEvent { code: KeyCode::Char('a'), ctrl: true, shift: false, alt: false }
    } else if b == 2 {
        KeyEvent { code: KeyCode::Char('b'), ctrl: true, shift: false, alt: false }
    } else if b == 3 {
        KeyEvent { code: KeyCode::Char('c'), ctrl: true, shift: false, alt: false }
    } else if b == 4 {
        KeyEvent { code: KeyCode::Char('d'), ctrl: true, shift: false, alt: false }
    } else if b == 5 {
        KeyEvent { code: KeyCode::Char('e'), ctrl: true, shift: false, alt: false }
    } else if b == 6 {
        KeyEvent { code: KeyCode::Char('f'), ctrl: true, shift: false, alt: false }
    } else if b == 9 {
        KeyEvent { code: KeyCode::Tab, ctrl: false, shift: false, alt: false }
    } else if b == 13 {
        KeyEvent { code: KeyCode::Enter, ctrl: false, shift: false, alt: false }
    } else if b == 14 {
        KeyEvent { code: KeyCode::Char('n'), ctrl: true, shift: false, alt: false }
    } else if b == 16 {
        KeyEvent { code: KeyCode::Char('p'), ctrl: true, shift: false, alt: false }
    } else if b == 19 {
        KeyEvent { code: KeyCode::Char('s'), ctrl: true, shift: false, alt: false }
    } else if b == 21 {
        KeyEvent { code: KeyCode::Char('u'), ctrl: true, shift: false, alt: false }
    } else if b == 23 {
        KeyEvent { code: KeyCode::Char('w'), ctrl: true, shift: false, alt: false }
    } else if b == 25 {
        KeyEvent { code: KeyCode::Char('y'), ctrl: true, shift: false, alt: false }
    } else if b == 127 {
        KeyEvent { code: KeyCode::Backspace, ctrl: false, shift: false, alt: false }
    } else {
        KeyEvent { code: KeyCode::Char(b as char), ctrl: false, shift: false, alt: false }
    }
}

/// The parameter bytes of a CSI sequence as characters.
pub open spec fn param_chars(params: Seq<u8>) -> Seq<char> {
    params.map_values(|b: u8| b as char)
}

/// The numeric CSI parameters: the `;`-separated pieces that are not empty
/// and parse as `u32`, in order.
pub open spec fn csi_numbers(pieces: Seq<Seq<char>>) -> Seq<u32>
    decreases pieces.len(),
{
    if pieces.len() == 0 {
        seq![]
    } else {
        let p = csi_numbers(pieces.drop_last());
        let s = pieces.last();
        if s.len() > 0 {
            match unsigned_decimal(s) {
                Some(n) => if n <= u32::MAX {
                    p.push(n as u32)
                } else {
                    p
                },
                None => p,
            }
        } else {
            p
        }
    }
}

/// The key a complete CSI sequence with final byte `f` and parameters
/// `nums` stands for.
pub open spec fn csi_key(f: u8, nums: Seq<u32>) -> KeyEvent {
    let first = if nums.len() > 0 { nums[0] as int } else { 0 };
    let second = if nums.len() > 1 { nums[1] as int } else { 1 };
    if f == 0x41 {
        plain(KeyCode::Up)
    } else if f == 0x42 {
        plain(KeyCode::Down)
    } else if f == 0x43 {
        plain(KeyCode::Right)
    } else if f == 0x44 {
        plain(KeyCode::Left)
    } else if f == 0x5a {
        KeyEvent { code: KeyCode::BackTab, ctrl: false, shift: true, alt: false }
    } else if f == 0x75 {
        if first == 9 {
            csi_mods(KeyCode::Tab, second)
        } else if first == 13 {
            csi_mods(KeyCode::Enter, second)
        } else if first == 27 {
            csi_mods(KeyCode::Esc, second)
        } else if first == 127 {
            csi_mods(KeyCode::Backspace, second)
        } else if 32 <= first <= 126 {
            csi_mods(KeyCode::Char((first as u8) as char), second)
        } else {
            plain(KeyCode::Esc)
        }
    } else if f == 0x48 {
        plain(KeyCode::Home)
    } else if f == 0x46 {
        plain(KeyCode::End)
    } else if f == 0x7e {
        if first == 1 {
            csi_mods(KeyCode::Home, second)
        } else if first == 3 {
            csi_mods(KeyCode::Delete, second)
        } else if first == 4 {
            csi_mods(KeyCode::End, second)
        } else if first == 5 {
            csi_mods(KeyCode::PageUp, second)
        } else if first == 6 {
            csi_mods(KeyCode::PageDown, second)
        } else if first == 11 {
            plain(KeyCode::F(1))
        } else if first == 12 {
            plain(KeyCode::F(2))
        } else if first == 13 {
            plain(KeyCode::F(3))
        } else if first == 14 {
            plain(KeyCode::F(4))
        } else if first == 15 {
            plain(KeyCode::F(5))
        } else if first == 17 {
            plain(KeyCode::F(6))
        } else if first == 18 {
            plain(KeyCode::F(7))
        } else if first == 19 {
            plain(KeyCode::F(8))
        } else if first == 20 {
            plain(KeyCode::F(9))
        } else if first == 21 {
            plain(KeyCode::F(10))
        } else if first == 23 {
            plain(KeyCode::F(11))
        } else if first == 24 {
            plain(KeyCode::F(12))
        } else {
            plain(KeyCode::Esc)
        }
    } else {
        plain(KeyCode::Esc)
    }
}

/// The first index from `i` on whose byte is at least `0x40` (a CSI final
/// byte), or the length when there is none.
pub open spec fn csi_end(bytes: Seq<u8>, i: int) -> int
    decreases bytes.len() - i,
{
    if i >= bytes.len() || i < 0 {
        bytes.len() as int
    } else if bytes[i] >= 0x40 {
        i
    } else {
        csi_end(bytes, i + 1)
    }
}

/// The key starting with the UTF-8 lead byte at 0, and the bytes it takes.
pub open spec fn utf8_key(bytes: Seq<u8>) -> Result<(KeyEvent, int), ReadError> {
    let first = bytes[0];
    let width = if 0xc0 <= first < 0xe0 {
        2int
    } else if 0xe0 <= first < 0xf0 {
        3int
    } else if 0xf0 <= first < 0xf8 {
        4int
    } else {
        0int
    };
    if width == 0 {
        Ok((plain(KeyCode::Char('?')), 1))
    } else if bytes.len() < width {
        Err(ReadError::UnexpectedEof)
    } else {
        match utf8_first(bytes.subrange(0, width)) {
            Some(c) => Ok((plain(KeyCode::Char(c)), width)),
            None => Ok((plain(KeyCode::Char('?')), width)),
        }
    }
}

/// The key at the start of `bytes` and the number of bytes it takes; an
/// escape with nothing (or nothing recognisable) after it is Esc.
pub open spec fn decode_key(bytes: Seq<u8>) -> Result<(KeyEvent, int), ReadError> {
    if bytes.len() == 0 {
        Err(ReadError::UnexpectedEof)
    } else if bytes[0] == 27 {
        if bytes.len() < 2 {
            Ok((plain(KeyCode::Esc), 1))
        } else if bytes[1] == 0x5b {
            let end = csi_end(bytes, 2);
            if end >= bytes.len() {
                Ok((plain(KeyCode::Esc), bytes.len() as int))
            } else {
                Ok((csi_key(bytes[end], csi_numbers(split(param_chars(bytes.subrange(2, end)), ';'))), end + 1))
            }
        } else if bytes[1] == 0x4f {
            if bytes.len() < 3 {
                Ok((plain(KeyCode::Esc), 2))
            } else {
                let b = bytes[2];
                Ok((
                    if b == 0x41 {
                        plain(KeyCode::Up)
                    } else if b == 0x42 {
                        plain(KeyCode::Down)
                    } else if b == 0x43 {
                        plain(KeyCode::Right)
                    } else if b == 0x44 {
                        plain(KeyCode::Left)
                    } else if b == 0x50 {
                        plain(KeyCode::F(1))
                    } else if b == 0x51 {
                        plain(KeyCode::F(2))
                    } else if b == 0x52 {
                        plain(KeyCode::F(3))
                    } else if b == 0x53 {
                        plain(KeyCode::F(4))
                    } else {
                        plain(KeyCode::Esc)
                    },
                    3,
                ))
            }
        } else {
            Ok((plain(KeyCode::Esc), 2))
        }
    } else if bytes[0] >= 0x80 {
        utf8_key(bytes)
    } else {
        Ok((byte_key(bytes[0]), 1))
    }
}

fn csi_mods_exec(code: KeyCode, param: u32) -> (r: KeyEvent)
    ensures
        r == csi_mods(code, param as int),
{
    let bits = if param > 1 {
        param - 1
    } else {
        0
    };
    KeyEvent { code, shift: bits % 2 == 1, alt: (bits / 2) % 2 == 1, ctrl: (bits / 4) % 2 == 1 }
}

fn csi_key_exec(f: u8, nums: &Vec<u32>) -> (r: KeyEvent)
    ensures
        r == csi_key(f, nums@),
{
    let first: u32 = if nums.len() > 0 {
        nums[0]
    } else {
        0
    };
    let second: u32 = if nums.len() > 1 {
        nums[1]
    } else {
        1
    };
    let p = |code: KeyCode| -> (k: KeyEvent)
        ensures
            k == plain(code),
        { KeyEvent { code, ctrl: false, shift: false, alt: false } };
    if f == 0x41 {
        p(KeyCode::Up)
    } else if f == 0x42 {
        p(KeyCode::Down)
    } else if f == 0x43 {
        p(KeyCode::Right)
    } else if f == 0x44 {
        p(KeyCode::Left)
    } else if f == 0x5a {
        KeyEvent { code: KeyCode::BackTab, ctrl: false, shift: true, alt: false }
    } else if f == 0x75 {
        if first == 9 {
            csi_mods_exec(KeyCode::Tab, second)
        } else if first == 13 {
            csi_mods_exec(KeyCode::Enter, second)
        } else if first == 27 {
            csi_mods_exec(KeyCode::Esc, second)
        } else if first == 127 {
            csi_mods_exec(KeyCode::Backspace, second)
        } else if 32 <= first && first <= 126 {
            csi_mods_exec(KeyCode::Char((first as u8) as char), second)
        } else {
            p(KeyCode::Esc)
        }
    } else if f == 0x48 {
        p(KeyCode::Home)
    } else if f == 0x46 {
        p(KeyCode::End)
    } else if f == 0x7e {
        if first == 1 {
            csi_mods_exec(KeyCode::Home, second)
        } else if first == 3 {
            csi_mods_exec(KeyCode::Delete, second)
        } else if first == 4 {
            csi_mods_exec(KeyCode::End, second)
        } else if first == 5 {
            csi_mods_exec(KeyCode::PageUp, second)
        } else if first == 6 {
            csi_mods_exec(KeyCode::PageDown, second)
        } else if first == 11 {
            p(KeyCode::F(1))
        } else if first == 12 {
            p(KeyCode::F(2))
        } else if first == 13 {
            p(KeyCode::F(3))
        } else if first == 14 {
            p(KeyCode::F(4))
        } else if first == 15 {
            p(KeyCode::F(5))
        } else if first == 17 {
            p(KeyCode::F(6))
        } else if first == 18 {
            p(KeyCode::F(7))
        } else if first == 19 {
            p(KeyCode::F(8))
        } else if first == 20 {
            p(KeyCode::F(9))
        } else if first == 21 {
            p(KeyCode::F(10))
        } else if first == 23 {
            p(KeyCode::F(11))
        } else if first == 24 {
            p(KeyCode::F(12))
        } else {
            p(KeyCode::Esc)
        }
    } else {
        p(KeyCode::Esc)
    }
}

fn csi_numbers_exec(params: &Vec<u8>) -> (r: Vec<u32>)
    ensures
        r@ == csi_numbers(split(param_chars(params@), ';')),
{
    let mut cs: Vec<char> = Vec::new();
    let mut i: usize = 0;
    while i < params.len()
        invariant
            i <= params@.len(),
            cs@ == param_chars(params@.subrange(0, i as int)),
        decreases params@.len() - i,
    {
        cs.push(params[i] as char);
        assert(param_chars(params@.subrange(0, i + 1)) =~= param_chars(params@.subrange(0, i as int)).push(params@[i as int] as char));
        i += 1;
    }
    assert(params@.subrange(0, params@.len() as int) =~= params@);
    let pieces = split_by(&cs, Splitter::OnChar(';'));
    let ghost pv = views(pieces@);
    let mut nums: Vec<u32> = Vec::new();
    let mut k: usize = 0;
    while k < pieces.len()
        invariant
            k <= pieces@.len(),
            pv == views(pieces@),
            nums@ == csi_numbers(pv.subrange(0, k as int)),
        decreases pieces@.len() - k,
    {
        assert(pv.subrange(0, k + 1).drop_last() =~= pv.subrange(0, k as int));
        assert(pv.subrange(0, k + 1).last() == pieces@[k as int]@);
        if pieces[k].len() > 0 {
            match parse_u32(&pieces[k]) {
                Some(n) => nums.push(n),
                None => {},
            }
        }
        k += 1;
    }
    assert(pv.subrange(0, pv.len() as int) =~= pv);
    nums
}

/// Decode the key at the start of `bytes`, returning it with the number of
/// bytes it took. Empty input, or a UTF-8 character cut short, is an
/// unexpected end of input.
pub fn read_key(bytes: &[u8]) -> (r: Result<(KeyEvent, usize), ReadError>)
    ensures
        match r {
            Ok(p) => decode_key(bytes@) == Ok::<(KeyEvent, int), ReadError>((p.0, p.1 as int)),
            Err(e) => decode_key(bytes@) == Err::<(KeyEvent, int), ReadError>(e),
        },
{
    let n = bytes.len();
    if n == 0 {
        return Err(ReadError::UnexpectedEof);
    }
    let b0 = bytes[0];
    if b0 == 27 {
        if n < 2 {
            return Ok((KeyEvent { code: KeyCode::Esc, ctrl: false, shift: false, alt: false }, 1));
        }
        if bytes[1] == 0x5b {
            let mut j: usize = 2;
            while j < n && bytes[j] < 0x40
                invariant
                    2 <= j <= n,
                    n == bytes@.len(),
                    csi_end(bytes@, 2) == csi_end(bytes@, j as int),
                decreases n - j,
            {
                j += 1;
            }
            if j >= n {
                return Ok((KeyEvent { code: KeyCode::Esc, ctrl: false, shift: false, alt: false }, n));
            }
            let mut params: Vec<u8> = Vec::new();
            let mut k: usize = 2;
            while k < j
                invariant
                    2 <= k <= j,
                    j < n,
                    n == bytes@.len(),
                    params@ == bytes@.subrange(2, k as int),
                decreases j - k,
            {
                params.push(bytes[k]);
                k += 1;
            }
            let nums = csi_numbers_exec(&params);
            return Ok((csi_key_exec(bytes[j], &nums), j + 1));
        }
        if bytes[1] == 0x4f {
            if n < 3 {
                return Ok((KeyEvent { code: KeyCode::Esc, ctrl: false, shift: false, alt: false }, 2));
            }
            let b = bytes[2];
            let code = if b == 0x41 {
                KeyCode::Up
            } else if b == 0x42 {
                KeyCode::Down
            } else if b == 0x43 {
                KeyCode::Right
            } else if b == 0x44 {
                KeyCode::Left
            } else if b == 0x50 {
                KeyCode::F(1)
            } else if b == 0x51 {
                KeyCode::F(2)
            } else if b == 0x52 {
                KeyCode::F(3)
            } else if b == 0x53 {
                KeyCode::F(4)
            } else {
                KeyCode::Esc
            };
            return Ok((KeyEvent { code, ctrl: false, shift: false, alt: false }, 3));
        }
        return Ok((KeyEvent { code: KeyCode::Esc, ctrl: false, shift: false, alt: false }, 2));
    }
    if b0 >= 0x80 {
        let width: usize = if 0xc0 <= b0 && b0 < 0xe0 {
            2
        } else if 0xe0 <= b0 && b0 < 0xf0 {
            3
        } else if 0xf0 <= b0 && b0 < 0xf8 {
            4
        } else {
            0
        };
        if width == 0 {
            return Ok((KeyEvent { code: KeyCode::Char('?'), ctrl: false, shift: false, alt: false }, 1));
        }
        if n < width {
            return Err(ReadError::UnexpectedEof);
        }
        let mut lead: Vec<u8> = Vec::new();
        let mut k: usize = 0;
        while k < width
            invariant
                k <= width <= n,
                n == bytes@.len(),
                lead@ == bytes@.subrange(0, k as int),
            decreases width - k,
        {
            lead.push(bytes[k]);
            k += 1;
        }
        let c = match utf8_first_char(lead.as_slice()) {
            Some(c) => c,
            None => '?',
        };
        return Ok((KeyEvent { code: KeyCode::Char(c), ctrl: false, shift: false, alt: false }, width));
    }
    Ok((byte_key_exec(b0), 1))
}

} // verus!
