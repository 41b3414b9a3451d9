//! Validation of capture interface names.

use vstd::prelude::*;
use vstd::string::StringExecFns;

use crate::text::{chars_of, is_white_space, is_whitespace, trim, trim_bounds};

verus! {

/// Whether `c` may not appear in an interface name: white space, `/` or `\`.
pub open spec fn forbidden_in_name(c: char) -> bool {
    is_white_space(c) || c == '/' || c == '\\'
}

/// The message for an empty (or blank) interface name.
pub open spec fn empty_name_message() -> Seq<char> {
    "Interface name cannot be empty"@
}

/// The message for an interface name with a forbidden character.
pub open spec fn invalid_name_message(iface: Seq<char>) -> Seq<char> {
    "Invalid interface name: '"@ + iface + "'"@
}

/// The message for an interface that the system does not list.
pub open spec fn missing_interface_message(iface: Seq<char>) -> Seq<char> {
    "Interface '"@ + iface
        + "' does not exist on this system. Check /sys/class/net or pass a valid interface name."@
}

/// The message for a system interface list that cannot be read.
pub open spec fn unreadable_listing_message(iface: Seq<char>) -> Seq<char> {
    "Unable to inspect system interfaces for '"@ + iface + "': /sys/class/net is not accessible"@
}

/// The verdict on the form of an interface name: it must not be blank, and
/// must hold no white space, `/` or `\`.
pub open spec fn interface_name_check(iface: Seq<char>) -> Result<(), Seq<char>> {
    if trim(iface).len() == 0 {
        Err(empty_name_message())
    } else if exists|i: int| 0 <= i < iface.len() && #[trigger] forbidden_in_name(iface[i]) {
        Err(invalid_name_message(iface))
    } else {
        Ok(())
    }
}

/// Checks the form of a capture interface name.
pub fn check_interface_name(iface: &str) -> (r: Result<(), String>)
    ensures
        match interface_name_check(iface@) {
            Ok(_) => r is Ok,
            Err(m) => r is Err && r->Err_0@ == m,
        },
{
    let s = chars_of(iface);
    let n = s.len();
    let (lo, hi) = trim_bounds(&s, 0, n);
    assert(s@.subrange(0, n as int) =~= s@);
    if lo == hi {
        return Err("Interface name cannot be empty".to_string());
    }
    let mut i: usize = 0;
    while i < n
        invariant
            n == s.len(),
            s@ == iface@,
            trim(iface@).len() > 0,
            i <= n,
            forall|k: int| 0 <= k < i ==> !#[trigger] forbidden_in_name(s@[k]),
        decreases n - i,
    {
        let c = s[i];
        if is_whitespace(c) || c == '/' || c == '\\' {
            assert(forbidden_in_name(s@[i as int]));
            return Err("Invalid interface name: '".to_string().concat(iface).concat("'"));
        }
        i = i + 1;
    }
    Ok(())
}

/// What the system says about its network interfaces.
pub enum InterfaceListing {
    /// No list is consulted on this system.
    NotChecked,
    /// The list could not be read.
    Unreadable,
    /// The names of the interfaces the system has.
    Names(Vec<String>),
}

/// Whether `iface` occurs in `names`.
pub open spec fn listed(iface: Seq<char>, names: Seq<String>) -> bool {
    exists|i: int| 0 <= i < names.len() && #[trigger] names[i]@ == iface
}

/// The verdict on a capture interface name: its form must pass
/// `interface_name_check`, and where the system lists its interfaces the
/// list must be readable and hold the name.
pub open spec fn interface_check(iface: Seq<char>, listing: InterfaceListing) -> Result<(), Seq<char>> {
    match interface_name_check(iface) {
        Err(m) => Err(m),
        Ok(_) => match listing {
            InterfaceListing::NotChecked => Ok(()),
            InterfaceListing::Unreadable => Err(unreadable_listing_message(iface)),
            InterfaceListing::Names(names) => if listed(iface, names@) {
                Ok(())
            } else {
                Err(missing_interface_message(iface))
            },
        },
    }
}

/// Whether `iface` occurs in `names`.
fn is_listed(iface: &str, names: &Vec<String>) -> (b: bool)
    ensures
        b == listed(iface@, names@),
{
    let target = iface.to_string();
    let mut i: usize = 0;
    while i < names.len()
        invariant
            target@ == iface@,
            i <= names.len(),
            forall|k: int| 0 <= k < i ==> #[trigger] names@[k]@ != iface@,
        decreases names.len() - i,
    {
        if names[i] == target {
            assert(names@[i as int]@ == iface@);
            return true;
        }
        i = i + 1;
    }
    false
}

/// Validates a capture interface name against its form and the system's list
/// of interfaces.
pub fn validate_interface_name(iface: &str, listing: &InterfaceListing) -> (r: Result<(), String>)
    ensures
        match interface_check(iface@, *listing) {
            Ok(_) => r is Ok,
            Err(m) => r is Err && r->Err_0@ == m,
        },
{
    check_interface_name(iface)?;
    match listing {
        InterfaceListing::NotChecked => Ok(()),
        InterfaceListing::Unreadable => Err(
            "Unable to inspect system interfaces for '".to_string().concat(iface).concat(
                "': /sys/class/net is not accessible",
            ),
        ),
        InterfaceListing::Names(names) => {
            if is_listed(iface, names) {
                return Ok(());
            }
            Err(
                "Interface '".to_string().concat(iface).concat(
                    "' does not exist on this system. Check /sys/class/net or pass a valid interface name.",
                ),
            )
        },
    }
}

} // verus!
