//! PlayStation 2 memory cards: the product code a save directory's name carries.
//!
//! The card filesystem itself is not read by this library. A PS2 save is a directory, named
//! region code then the disc's product code, the same way a PS1 save file is: `BASLUS-20312` is
//! `BA` and `SLUS-20312`.

use vstd::prelude::*;
use vstd::string::*;
use crate::text::{ascii_string, ascii_text};
use crate::label::{admitted, shift_jis_field, shift_jis_label, value as label, Label};

verus! {

/// Whether a byte is an ASCII capital.
pub open spec fn is_upper(b: u8) -> bool {
    0x41 <= b <= 0x5A
}

/// Whether a byte is an ASCII digit.
pub open spec fn is_digit(b: u8) -> bool {
    0x30 <= b <= 0x39
}

/// Whether ten bytes are shaped like a product code: four capitals, a dash, five digits.
pub open spec fn serial_shaped(s: Seq<u8>) -> bool {
    &&& forall|i: int| 0 <= i < 4 ==> is_upper(#[trigger] s[i])
    &&& s[4] == 0x2D
    &&& forall|i: int| 5 <= i < 10 ==> is_digit(#[trigger] s[i])
}

/// The product code a directory name carries: its third to twelfth bytes, when they are shaped
/// like one.
pub open spec fn serial_of_name(name: Seq<u8>) -> Option<Seq<char>> {
    if name.len() < 12 || !serial_shaped(name.subrange(2, 12)) {
        None
    } else {
        Some(ascii_text(name.subrange(2, 12)))
    }
}

/// The product code out of a save directory's name.
pub fn serial_from_name(name: &str) -> (r: Option<String>)
    ensures
        r matches Some(s) ==> serial_of_name(name.spec_bytes()) == Some(s@),
        r is None ==> serial_of_name(name.spec_bytes()) is None,
{
    let bytes = name.as_bytes();
    if bytes.len() < 12 {
        return None;
    }
    let serial = &bytes[2..12];
    let mut i: usize = 0;
    while i < 10
        invariant
            i <= 10,
            serial@.len() == 10,
            bytes@ == name.spec_bytes(),
            bytes@.len() >= 12,
            serial@ == bytes@.subrange(2, 12),
            forall|k: int| 0 <= k < i && k < 4 ==> is_upper(#[trigger] serial@[k]),
            i > 4 ==> serial@[4] == 0x2D,
            forall|k: int| 5 <= k < i ==> is_digit(#[trigger] serial@[k]),
        decreases 10 - i,
    {
        let b = serial[i];
        let fits = if i < 4 {
            0x41 <= b && b <= 0x5A
        } else if i == 4 {
            b == 0x2D
        } else {
            0x30 <= b && b <= 0x39
        };
        if !fits {
            proof {
                assert(!serial_shaped(serial@));
            }
            return None;
        }
        i = i + 1;
    }
    proof {
        assert forall|k: int| 0 <= k < serial@.len() implies serial@[k] < 0x80 by {
            if k < 4 {
                assert(is_upper(serial@[k]));
            } else if k > 4 {
                assert(is_digit(serial@[k]));
            }
        }
    }
    Some(ascii_string(serial))
}

/// Where in a save's `icon.sys` the line the browser lists it under sits, and how long it runs:
/// 68 bytes of Shift-JIS. The browser breaks it across two lines at an offset held at 0x06, which
/// is layout rather than content, so both halves are one title.
pub const ICON_SYS_TITLE: usize = 0xc0;
pub const ICON_SYS_TITLE_LEN: usize = 68;

/// Whether a file opens the way an `icon.sys` does, with `PS2D`.
pub open spec fn opens_as_icon_sys(data: Seq<u8>) -> bool {
    data.len() >= 4 && data[0] == 0x50 && data[1] == 0x53 && data[2] == 0x32 && data[3] == 0x44
}

/// The title a save's `icon.sys` gives it.
pub open spec fn icon_sys_title(data: Seq<u8>) -> Option<Seq<char>> {
    if !opens_as_icon_sys(data) || data.len() < ICON_SYS_TITLE + ICON_SYS_TITLE_LEN {
        None
    } else {
        admitted(
            shift_jis_label(
                data.subrange(ICON_SYS_TITLE as int, (ICON_SYS_TITLE + ICON_SYS_TITLE_LEN) as int),
            ),
        )
    }
}

/// The title runs the whole 68 bytes from 0xC0, both of the browser's lines: an `icon.sys` long
/// enough to hold them is titled by the Shift-JIS label of exactly its bytes 0xC0 to 0x104, so two
/// such files that agree there have the same title whatever else they hold, and one too short to
/// hold all 68 has none.
pub proof fn lemma_the_title_is_all_68_bytes(data: Seq<u8>, other: Seq<u8>)
    requires
        opens_as_icon_sys(data),
    ensures
        data.len() >= 0x104 ==> icon_sys_title(data) == admitted(shift_jis_label(data.subrange(0xC0, 0x104))),
        data.len() < 0x104 ==> icon_sys_title(data) is None,
        data.len() >= 0x104 && other.len() >= 0x104 && opens_as_icon_sys(other) && data.subrange(0xC0, 0x104)
            == other.subrange(0xC0, 0x104) ==> icon_sys_title(data) == icon_sys_title(other),
{
}

/// The line the browser shows for a save, out of the save's `icon.sys` file; nothing for a file
/// of that name and the wrong shape.
pub fn title_of(icon_sys: &[u8]) -> (r: Option<Label>)
    ensures
        match icon_sys_title(icon_sys@) {
            Some(title) => r matches Some(found) && found.title@ == title && found.detail is None,
            None => r is None,
        },
{
    if icon_sys.len() < 4 || icon_sys[0] != 0x50 || icon_sys[1] != 0x53 || icon_sys[2] != 0x32
        || icon_sys[3] != 0x44 {
        return None;
    }
    if icon_sys.len() < ICON_SYS_TITLE + ICON_SYS_TITLE_LEN {
        return None;
    }
    label(shift_jis_field(&icon_sys[ICON_SYS_TITLE..ICON_SYS_TITLE + ICON_SYS_TITLE_LEN]), None)
}

} // verus!
