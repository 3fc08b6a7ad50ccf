//! The names under which fcitx input-method frontends are reached over DBus.

use crate::text::str_eq;
use vstd::prelude::*;

verus! {

/// The factory of input contexts.
pub const INPUT_METHOD_IFACE: &'static str = "org.fcitx.Fcitx.InputMethod1";

/// An fcitx5 input context.
pub const INPUT_CONTEXT_IFACE: &'static str = "org.fcitx.Fcitx.InputContext1";

/// An fcitx4 input context.
pub const INPUT_CONTEXT_IFACE_FCITX4: &'static str = "org.fcitx.Fcitx.InputContext";

/// The bus name that fcitx5 owns.
pub const FCITX5_NAME: &'static str = "org.fcitx.Fcitx5";

/// The bus name of the portal variant.
pub const FCITX_PORTAL_NAME: &'static str = "org.freedesktop.portal.Fcitx";

/// The fcitx4 bus name, which fcitx5 also claims for old clients.
pub const FCITX4_NAME: &'static str = "org.fcitx.Fcitx";

/// Whether a method call's interface is one of the fcitx frontend's.
pub fn is_fcitx_interface(iface: &str) -> (r: bool)
    ensures
        r == (iface@ == INPUT_METHOD_IFACE@ || iface@ == INPUT_CONTEXT_IFACE@ || iface@
            == INPUT_CONTEXT_IFACE_FCITX4@),
{
    str_eq(iface, INPUT_METHOD_IFACE) || str_eq(iface, INPUT_CONTEXT_IFACE) || str_eq(
        iface,
        INPUT_CONTEXT_IFACE_FCITX4,
    )
}

/// Whether `name` is one of the well-known bus names that fcitx registers.
pub fn is_fcitx_well_known(name: &str) -> (r: bool)
    ensures
        r == (name@ == FCITX5_NAME@ || name@ == FCITX_PORTAL_NAME@ || name@ == FCITX4_NAME@),
{
    str_eq(name, FCITX5_NAME) || str_eq(name, FCITX_PORTAL_NAME) || str_eq(name, FCITX4_NAME)
}

/// The factory and the input contexts of both fcitx versions are the frontend's
/// interfaces, and no other name is.
pub proof fn three_interfaces_are_the_frontends(iface: &str, r: bool)
    requires
        call_ensures(is_fcitx_interface, (iface,), r),
    ensures
        r == (iface@ == "org.fcitx.Fcitx.InputMethod1"@ || iface@
            == "org.fcitx.Fcitx.InputContext1"@ || iface@ == "org.fcitx.Fcitx.InputContext"@),
{
}

/// fcitx registers three bus names: that of fcitx5, that of fcitx4 and that of
/// the portal.
pub proof fn three_bus_names_are_fcitx(name: &str, r: bool)
    requires
        call_ensures(is_fcitx_well_known, (name,), r),
    ensures
        r == (name@ == "org.fcitx.Fcitx5"@ || name@ == "org.fcitx.Fcitx"@ || name@
            == "org.freedesktop.portal.Fcitx"@),
{
}

} // verus!
