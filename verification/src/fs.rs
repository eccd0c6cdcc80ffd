//! What the build asks of a path and of the times at which files changed.

use vstd::prelude::*;
use vstd::utf8::{decode_utf8, valid_utf8};
use crate::fsutil::{extension, extension_of_path, is_hidden, text_of};
use crate::jinja2::{template_name_bytes, NameError};

verus! {

/// The time at which a file last changed: whole seconds since the start of
/// 1970, and the nanoseconds into the second after them.
#[derive(Debug, Clone, Copy, PartialEq, Eq, Structural)]
pub struct Timestamp {
    pub secs: i64,
    pub nanos: u32,
}

/// The nanoseconds in a second.
pub const NANOS_PER_SEC: u32 = 1_000_000_000;

impl Timestamp {
    /// Whether this time lies before `other`: by the seconds, and within one
    /// second by the nanoseconds.
    pub open spec fn earlier_than(self, other: Timestamp) -> bool {
        self.secs < other.secs || (self.secs == other.secs && self.nanos < other.nanos)
    }

    /// Whether the nanoseconds stay within their second.
    pub open spec fn normal(self) -> bool {
        self.nanos < NANOS_PER_SEC
    }

    /// The time in nanoseconds since the start of 1970.
    pub open spec fn instant(self) -> int {
        self.secs * NANOS_PER_SEC + self.nanos
    }

    /// Between times whose nanoseconds stay within their second,
    /// `earlier_than` is the order of time.
    pub proof fn lemma_order_is_time_order(self, other: Timestamp)
        requires
            self.normal(),
            other.normal(),
        ensures
            self.earlier_than(other) <==> self.instant() < other.instant(),
    {
        assert(self.secs < other.secs ==> self.secs * NANOS_PER_SEC + NANOS_PER_SEC <= other.secs
            * NANOS_PER_SEC) by (nonlinear_arith);
        assert(other.secs < self.secs ==> other.secs * NANOS_PER_SEC + NANOS_PER_SEC <= self.secs
            * NANOS_PER_SEC) by (nonlinear_arith);
    }

    /// The time `secs` seconds and `nanos` nanoseconds after the start of
    /// 1970, where `nanos` is less than a second and the seconds can be
    /// held.
    pub fn after_epoch(secs: u64, nanos: u32) -> (r: Option<Timestamp>)
        ensures
            r is Some <==> secs <= i64::MAX && nanos < NANOS_PER_SEC,
            r matches Some(at) ==> at.normal() && at.instant() == secs * NANOS_PER_SEC + nanos,
    {
        if secs > 0x7fff_ffff_ffff_ffff || nanos >= NANOS_PER_SEC {
            None
        } else {
            Some(Timestamp { secs: secs as i64, nanos })
        }
    }

    /// The time `secs` seconds and `nanos` nanoseconds before the start of
    /// 1970, where `nanos` is less than a second and the seconds can be
    /// held.
    pub fn before_epoch(secs: u64, nanos: u32) -> (r: Option<Timestamp>)
        ensures
            r is Some <==> secs < i64::MAX && nanos < NANOS_PER_SEC,
            r matches Some(at) ==> at.normal() && at.instant() == -(secs * NANOS_PER_SEC + nanos),
    {
        if secs >= 0x7fff_ffff_ffff_ffff || nanos >= NANOS_PER_SEC {
            None
        } else if nanos == 0 {
            Some(Timestamp { secs: -(secs as i64), nanos: 0 })
        } else {
            let at = Timestamp { secs: -(secs as i64) - 1, nanos: NANOS_PER_SEC - nanos };
            assert(at.instant() == -(secs * NANOS_PER_SEC + nanos)) by (nonlinear_arith)
                requires
                    at.secs == -(secs as int) - 1,
                    at.nanos == NANOS_PER_SEC - nanos,
            ;
            Some(at)
        }
    }

    /// Whether this time lies before `other`.
    pub fn before(&self, other: &Timestamp) -> (r: bool)
        ensures
            r == self.earlier_than(*other),
    {
        self.secs < other.secs || (self.secs == other.secs && self.nanos < other.nanos)
    }
}

/// Whether a file derived from a source that changed at `source` is up to
/// date: it exists, having changed at `other`, and not before the source.
/// Between times whose nanoseconds stay within their second, as
/// `after_epoch` and `before_epoch` make them, that is the order of time.
pub fn more_recent_than(source: Timestamp, other: Option<Timestamp>) -> (r: bool)
    ensures
        r == match other {
            Some(at) => !at.earlier_than(source),
            None => false,
        },
        other is Some && other->0.normal() && source.normal() ==> r == (other->0.instant()
            >= source.instant()),
{
    proof {
        if other is Some && other->0.normal() && source.normal() {
            other->0.lemma_order_is_time_order(source);
        }
    }
    match other {
        Some(at) => !at.before(&source),
        None => false,
    }
}

/// Whether a derived file has to be made again: it is missing, or it last
/// changed before its source did. One that changed at the same time as its
/// source, or later, is kept. Between times whose nanoseconds stay within
/// their second, as `after_epoch` and `before_epoch` make them, "before" is
/// the order of time.
pub fn is_stale(source: Timestamp, dest: Option<Timestamp>) -> (r: bool)
    ensures
        r == match dest {
            Some(at) => at.earlier_than(source),
            None => true,
        },
        dest is Some && dest->0.normal() && source.normal() ==> r == (dest->0.instant()
            < source.instant()),
{
    !more_recent_than(source, dest)
}

/// What the build asks of a path.
pub trait PathExt {
    /// The path's bytes.
    spec fn path_bytes(&self) -> Seq<u8>;

    /// The path's extension as text, where it has one and that is UTF-8.
    fn extension_str(&self) -> (r: Option<String>)
        ensures
            match extension(self.path_bytes()) {
                Some(ext) => if valid_utf8(ext) {
                    r matches Some(text) && text@ == decode_utf8(ext)
                } else {
                    r is None
                },
                None => r is None,
            },
    ;

    /// Whether the path names a hidden file.
    fn is_underscored(&self) -> (r: bool)
        ensures
            r == is_hidden(self.path_bytes()),
    ;

    /// The name of the template at this path in the source tree `www`.
    fn template_name(&self, www: &[u8]) -> (r: Result<String, NameError>)
        ensures
            match template_name_bytes(self.path_bytes(), www@) {
                None => r == Err::<String, NameError>(NameError::Outside),
                Some(bytes) => if valid_utf8(bytes) {
                    r matches Ok(name) && name@ == decode_utf8(bytes)
                } else {
                    r == Err::<String, NameError>(NameError::NotText)
                },
            },
    ;
}

impl PathExt for [u8] {
    open spec fn path_bytes(&self) -> Seq<u8> {
        self@
    }

    fn extension_str(&self) -> (r: Option<String>) {
        match extension_of_path(self) {
            Some(ext) => text_of(ext),
            None => None,
        }
    }

    fn is_underscored(&self) -> (r: bool) {
        crate::fsutil::is_underscored(self)
    }

    fn template_name(&self, www: &[u8]) -> (r: Result<String, NameError>) {
        crate::jinja2::template_name(self, www)
    }
}

} // verus!
