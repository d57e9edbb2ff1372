//! Paths as the firmware takes them.
use vstd::prelude::*;

verus! {

/// The path cannot be written for the firmware: it holds a nul character or one that does not fit in
/// 16 bits.
#[derive(Clone, Copy, Debug, Eq, PartialEq)]
pub struct PathError;

/// A path as the firmware takes it: one 16-bit unit for each character, and a nul at the end.
pub open spec fn firmware_path(path: Seq<char>) -> Option<Seq<u16>> {
    if forall|i: int| 0 <= i < path.len() ==> '\u{0}' < (#[trigger] path[i]) <= '\u{ffff}' {
        Some(path.map_values(|c: char| c as u16).push(0))
    } else {
        None
    }
}

/// The error of `uefi::CString16::try_from`; nothing is read from it.
#[verifier::external_type_specification]
#[verifier::external_body]
pub struct ExFromStrError(uefi::data_types::FromStrError);

/// Calls `uefi::CString16::try_from` and hands back the units of the string, the nul included. The
/// conversion fails where a character is nul or takes two units of UTF-16. Otherwise each character
/// becomes one unit, and a nul follows.
#[verifier::external_body]
fn cstring16(path: &str) -> (r: Result<Vec<u16>, uefi::data_types::FromStrError>)
    ensures
        match r {
            Ok(units) => firmware_path(path@) == Some(units@),
            Err(_) => firmware_path(path@) is None,
        },
{
    let string = uefi::CString16::try_from(path)?;
    Ok(string.to_u16_slice_with_nul().to_vec())
}

/// Writes a path for the firmware.
pub fn path_units(path: &str) -> (r: Result<Vec<u16>, PathError>)
    ensures
        match r {
            Ok(units) => firmware_path(path@) == Some(units@),
            Err(_) => firmware_path(path@) is None,
        },
{
    match cstring16(path) {
        Ok(units) => Ok(units),
        Err(_) => Err(PathError),
    }
}

/// A path for the firmware ends with its only nul, and no two paths are written alike.
pub proof fn law_firmware_path_is_faithful(a: Seq<char>, b: Seq<char>)
    requires
        firmware_path(a) is Some,
    ensures
        firmware_path(a)->0.len() == a.len() + 1,
        firmware_path(a)->0.last() == 0,
        forall|i: int| 0 <= i < a.len() ==> #[trigger] firmware_path(a)->0[i] == a[i] as u16
            && firmware_path(a)->0[i] != 0,
        firmware_path(a) == firmware_path(b) ==> a == b,
{
    let units = firmware_path(a)->0;
    assert forall|i: int| 0 <= i < a.len() implies #[trigger] units[i] == a[i] as u16 && units[i]
        != 0 by {
        assert('\u{0}' < a[i] <= '\u{ffff}');
    }
    if firmware_path(a) == firmware_path(b) {
        assert(units == b.map_values(|c: char| c as u16).push(0));
        assert(a.len() == b.len());
        assert forall|i: int| 0 <= i < a.len() implies a[i] == b[i] by {
            assert(units[i] == a[i] as u16);
            assert(units[i] == b[i] as u16);
            assert('\u{0}' < a[i] <= '\u{ffff}');
            assert('\u{0}' < b[i] <= '\u{ffff}');
        }
        assert(a =~= b);
    }
}

/// A path can be written for the firmware if and only if each of its characters is a number from 1 to
/// 65535.
pub proof fn law_paths_of_short_characters_can_be_written(path: Seq<char>)
    ensures
        firmware_path(path) is Some <==> forall|i: int|
            0 <= i < path.len() ==> 1 <= #[trigger] path[i] as int <= 65535,
{
    if firmware_path(path) is Some {
        assert forall|i: int| 0 <= i < path.len() implies 1 <= #[trigger] path[i] as int <= 65535 by {
            assert('\u{0}' < path[i] <= '\u{ffff}');
        }
    }
    if forall|i: int| 0 <= i < path.len() ==> 1 <= #[trigger] path[i] as int <= 65535 {
        assert forall|i: int| 0 <= i < path.len() implies '\u{0}' < (#[trigger] path[i]) <= '\u{ffff}' by {
            assert(1 <= path[i] as int <= 65535);
        }
    }
}

} // verus!
