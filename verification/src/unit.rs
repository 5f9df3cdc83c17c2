//! The two unit models shared by every trimming operation: bytes with the
//! ASCII whitespace/control classes, and Unicode scalar values with the
//! `White_Space` property and the `Cc` control class.

use vstd::prelude::*;

verus! {

/// The whitespace class of a unit model, as a predicate.
pub open spec fn ws_fn<T: TrimUnit>() -> spec_fn(T) -> bool {
    |u: T| u.is_ws_spec()
}

/// The union of the whitespace and control classes of a unit model, as a
/// predicate.
pub open spec fn ws_ctl_fn<T: TrimUnit>() -> spec_fn(T) -> bool {
    |u: T| u.is_ws_spec() || u.is_ctl_spec()
}

/// One element of a trimmable sequence: a byte or a Unicode scalar value.
///
/// The two unit models expose the same interface: a whitespace predicate,
/// a control predicate, and the canonical space unit that replaces any
/// other whitespace during normalization.
pub trait TrimUnit: Copy + Sized {
    /// Whether this unit counts as whitespace in its model.
    spec fn is_ws_spec(self) -> bool;

    /// Whether this unit counts as a control unit in its model.
    spec fn is_ctl_spec(self) -> bool;

    /// The canonical space unit of the model.
    spec fn space() -> Self;

    /// The canonical space unit is itself whitespace.
    proof fn space_is_ws()
        ensures
            Self::space().is_ws_spec(),
    ;

    fn is_ws(self) -> (r: bool)
        ensures
            r == self.is_ws_spec(),
    ;

    fn is_ctl(self) -> (r: bool)
        ensures
            r == self.is_ctl_spec(),
    ;

    fn space_unit() -> (r: Self)
        ensures
            r == Self::space(),
    ;

    fn eq_unit(self, other: Self) -> (r: bool)
        ensures
            r == (self == other),
    ;
}

impl TrimUnit for u8 {
    /// The five ASCII whitespace bytes: space, tab, line feed, form feed,
    /// carriage return.
    open spec fn is_ws_spec(self) -> bool {
        self == 0x20u8 || self == 0x09u8 || self == 0x0au8 || self == 0x0cu8 || self == 0x0du8
    }

    /// The ASCII control bytes: `0x00..=0x1f` and `0x7f`.
    open spec fn is_ctl_spec(self) -> bool {
        self < 0x20u8 || self == 0x7fu8
    }

    open spec fn space() -> u8 {
        0x20u8
    }

    proof fn space_is_ws() {
    }

    fn is_ws(self) -> (r: bool) {
        self == 0x20u8 || self == 0x09u8 || self == 0x0au8 || self == 0x0cu8 || self == 0x0du8
    }

    fn is_ctl(self) -> (r: bool) {
        self < 0x20u8 || self == 0x7fu8
    }

    fn space_unit() -> (r: u8) {
        0x20u8
    }

    fn eq_unit(self, other: u8) -> (r: bool) {
        self == other
    }
}

impl TrimUnit for char {
    /// The scalar values with the Unicode `White_Space` property.
    open spec fn is_ws_spec(self) -> bool {
        let u = self as u32;
        (0x09 <= u && u <= 0x0d) || u == 0x20 || u == 0x85 || u == 0xa0 || u == 0x1680 || (0x2000
            <= u && u <= 0x200a) || u == 0x2028 || u == 0x2029 || u == 0x202f || u == 0x205f || u
            == 0x3000
    }

    /// The scalar values in the Unicode `Cc` (control) category:
    /// `U+0000..=U+001F` and `U+007F..=U+009F`.
    open spec fn is_ctl_spec(self) -> bool {
        let u = self as u32;
        u < 0x20 || (0x7f <= u && u <= 0x9f)
    }

    open spec fn space() -> char {
        ' '
    }

    proof fn space_is_ws() {
    }

    fn is_ws(self) -> (r: bool) {
        let u = self as u32;
        (0x09 <= u && u <= 0x0d) || u == 0x20 || u == 0x85 || u == 0xa0 || u == 0x1680 || (0x2000
            <= u && u <= 0x200a) || u == 0x2028 || u == 0x2029 || u == 0x202f || u == 0x205f || u
            == 0x3000
    }

    fn is_ctl(self) -> (r: bool) {
        let u = self as u32;
        u < 0x20 || (0x7f <= u && u <= 0x9f)
    }

    fn space_unit() -> (r: char) {
        ' '
    }

    fn eq_unit(self, other: char) -> (r: bool) {
        self == other
    }
}

} // verus!
