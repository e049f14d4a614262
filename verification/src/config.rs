//! What a client can be configured with.
use vstd::prelude::*;

verus! {

/// How one pixel is laid out in the image data.
#[derive(Debug, Clone, Copy, PartialEq, Eq, Structural)]
pub struct PixelFormat {
    pub bits_per_pixel: u8,
    pub depth: u8,
    pub big_endian_flag: u8,
    pub true_color_flag: u8,
    pub red_max: u16,
    pub green_max: u16,
    pub blue_max: u16,
    pub red_shift: u8,
    pub green_shift: u8,
    pub blue_shift: u8,
}

/// A protocol version, the oldest first.
#[derive(Debug, Clone, Copy, PartialEq, Eq, Structural)]
pub enum VncVersion {
    RFB33,
    RFB37,
    RFB38,
}

impl VncVersion {
    /// The place of the version in the order of the versions.
    pub open spec fn rank(self) -> int {
        match self {
            VncVersion::RFB33 => 0,
            VncVersion::RFB37 => 1,
            VncVersion::RFB38 => 2,
        }
    }

    /// The older of two versions.
    pub open spec fn older(self, other: VncVersion) -> VncVersion {
        if self.rank() < other.rank() {
            self
        } else {
            other
        }
    }

    /// Settles on a version that both sides know: the older of the two.
    pub fn negotiate(self, other: VncVersion) -> (agreed: VncVersion)
        ensures
            agreed == self.older(other),
    {
        match (self, other) {
            (VncVersion::RFB33, _) => VncVersion::RFB33,
            (_, VncVersion::RFB33) => VncVersion::RFB33,
            (VncVersion::RFB37, _) => VncVersion::RFB37,
            (VncVersion::RFB38, _) => other,
        }
    }
}

/// A way in which a rectangle of the screen can be sent.
#[derive(Debug, Clone, Copy, PartialEq, Eq, Structural)]
pub enum VncEncoding {
    Raw,
    CopyRect,
    Tight,
    Trle,
    Zrle,
    CursorPseudo,
    DesktopSizePseudo,
    LastRectPseudo,
}

impl VncEncoding {
    /// The encoding that a number stands for on the wire. Those of the
    /// pseudo-encodings are negative numbers of 32 bits: -239, -223 and -224.
    pub open spec fn numbered(code: u32) -> Option<VncEncoding> {
        if code == 0 {
            Some(VncEncoding::Raw)
        } else if code == 1 {
            Some(VncEncoding::CopyRect)
        } else if code == 7 {
            Some(VncEncoding::Tight)
        } else if code == 15 {
            Some(VncEncoding::Trle)
        } else if code == 16 {
            Some(VncEncoding::Zrle)
        } else if code == 0xffffff11 {
            Some(VncEncoding::CursorPseudo)
        } else if code == 0xffffff21 {
            Some(VncEncoding::DesktopSizePseudo)
        } else if code == 0xffffff20 {
            Some(VncEncoding::LastRectPseudo)
        } else {
            None
        }
    }

    /// Finds the encoding with this number, if there is one.
    pub fn from_number(code: u32) -> (encoding: Option<VncEncoding>)
        ensures
            encoding == VncEncoding::numbered(code),
    {
        match code {
            0 => Some(VncEncoding::Raw),
            1 => Some(VncEncoding::CopyRect),
            7 => Some(VncEncoding::Tight),
            15 => Some(VncEncoding::Trle),
            16 => Some(VncEncoding::Zrle),
            0xffffff11 => Some(VncEncoding::CursorPseudo),
            0xffffff21 => Some(VncEncoding::DesktopSizePseudo),
            0xffffff20 => Some(VncEncoding::LastRectPseudo),
            _ => None,
        }
    }
}

/// A way in which the server lets a client in.
#[derive(Debug, Clone, Copy, PartialEq, Eq, Structural)]
pub enum SecurityType {
    /// Everybody is let in.
    NoAuth,
    /// The client has to know a password.
    VncAuth,
    /// Anything else, with its number.
    Other(u8),
}

} // verus!
