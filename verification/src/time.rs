//! Spans and moments of time, by their seconds and nanoseconds.
//!
//! The format stores both numbers as they are, so they are all that there is
//! to say about a time here. It has no place for a moment before 1970.

use vstd::prelude::*;

use crate::columnar::ColumnCursor;
use crate::error::{Error, Fault, Result};
use crate::get::Cur;
use crate::put::Row;
use crate::schema::SchemaNode;
use crate::shape::Shape;
use crate::static_schema::StaticSchema;
use crate::typed_de::{DeserializeColumns, RoundTrip};
use crate::typed_ser::{Modeled, SerializeColumns, Walk};
use crate::typed_std::{
    as_struct, lemma_struct_back, lemma_struct_image, lemma_struct_read, lemma_struct_width,
    parts_stand, read_struct,
};
use crate::value::{Head, Scalar, Val};

verus! {

/// The nanoseconds of a second.
pub const NANOS_PER_SEC: u32 = 1_000_000_000;

/// A span of time: whole seconds, and the nanoseconds of one more.
#[derive(Clone, Copy, Debug, PartialEq, Eq, Structural)]
pub struct Duration {
    secs: u64,
    nanos: u32,
}

impl Duration {
    /// The whole seconds.
    pub closed spec fn seconds(&self) -> u64 {
        self.secs
    }

    /// The nanoseconds past the whole seconds.
    pub closed spec fn nanoseconds(&self) -> u32 {
        self.nanos
    }

    /// The span, unless the nanoseconds make up a second.
    pub fn new(secs: u64, nanos: u32) -> (result: Option<Self>)
        ensures
            match result {
                Some(span) => nanos < NANOS_PER_SEC && span.seconds() == secs && span.nanoseconds()
                    == nanos,
                None => nanos >= NANOS_PER_SEC,
            },
    {
        if nanos < NANOS_PER_SEC {
            Some(Duration { secs, nanos })
        } else {
            None
        }
    }

    /// The whole seconds.
    pub fn as_secs(&self) -> (result: u64)
        ensures
            result == self.seconds(),
    {
        self.secs
    }

    /// The nanoseconds past the whole seconds, which are less than a second.
    pub fn subsec_nanos(&self) -> (result: u32)
        ensures
            result == self.nanoseconds(),
            result < NANOS_PER_SEC,
    {
        proof {
            use_type_invariant(self);
        }
        self.nanos
    }

    #[verifier::type_invariant]
    spec fn below_a_second(self) -> bool {
        self.nanos < NANOS_PER_SEC
    }
}

/// The nanoseconds of what was read as seconds and nanoseconds.
pub open spec fn nanos_read(v: Val) -> u32 {
    match v.kids[1].head {
        Head::Scalar(Scalar::U32(nanos)) => nanos,
        _ => 0,
    }
}

/// What is read as seconds and nanoseconds, where the nanoseconds stay below a
/// second.
pub open spec fn read_span(cur: Cur) -> std::result::Result<(Val, Cur), Fault> {
    match <(u64, u32)>::read(cur) {
        Ok((v, end)) => if nanos_read(v) >= NANOS_PER_SEC {
            Err(Fault::Malformed("Duration nanoseconds out of range"@))
        } else {
            Ok((v, end))
        },
        Err(fault) => Err(fault),
    }
}

impl StaticSchema for Duration {
    open spec fn node() -> Shape {
        <std::time::Duration>::node()
    }

    proof fn lemma_node() {
        <std::time::Duration>::lemma_node();
    }

    fn schema_node() -> SchemaNode {
        <std::time::Duration>::schema_node()
    }

    fn columns() -> usize {
        <std::time::Duration>::columns()
    }

    fn fixed_width() -> Option<usize> {
        None
    }
}

impl Modeled for Duration {
    open spec fn val(&self, w: Walk) -> Val {
        as_struct((self.seconds(), self.nanoseconds()).val(w), Self::node())
    }

    open spec fn stands_for(&self, v: Val) -> bool {
        parts_stand((self.seconds(), self.nanoseconds()), v, Self::node())
    }
}

impl SerializeColumns for Duration {
    open spec fn writes(&self) -> bool {
        self.nanoseconds() < NANOS_PER_SEC
    }

    open spec fn image(&self, w: Walk) -> Seq<Seq<u8>> {
        (self.seconds(), self.nanoseconds()).image(w)
    }

    proof fn lemma_image(&self, w: Walk, base: nat, row: Row) {
        lemma_struct_image(&(self.seconds(), self.nanoseconds()), w, Self::node(), base, row);
    }

    fn serialize_columns(&self, columns: &mut [Vec<u8>]) -> (result: Result<()>) {
        proof {
            lemma_struct_width(Self::node(), <(u64, u32)>::node());
        }
        let parts = (self.as_secs(), self.subsec_nanos());
        assert forall|w: Walk| #[trigger] parts.image(w) == self.image(w) by {}
        parts.serialize_columns(columns)
    }
}

impl<'de> DeserializeColumns<'de> for Duration {
    open spec fn sound() -> bool {
        true
    }

    open spec fn read(cur: Cur) -> std::result::Result<(Val, Cur), Fault> {
        read_struct(Self::node(), read_span(cur))
    }

    proof fn lemma_read(base: nat, cur: Cur) {
        lemma_struct_read::<(u64, u32)>(Self::node(), base, cur);
    }

    fn deserialize_columns(cursors: &mut [ColumnCursor<'de>]) -> (result: Result<Self>) {
        proof {
            lemma_struct_width(Self::node(), <(u64, u32)>::node());
        }
        match <(u64, u32)>::deserialize_columns(cursors) {
            Ok((secs, nanos)) => match Duration::new(secs, nanos) {
                Some(span) => Ok(span),
                None => Err(Error::Malformed("Duration nanoseconds out of range")),
            },
            Err(error) => Err(error),
        }
    }
}

impl<'de> RoundTrip<'de> for Duration {
    proof fn lemma_read_back(&self, w: Walk, cur: Cur) {
        let parts = (self.seconds(), self.nanoseconds());
        lemma_struct_back::<(u64, u32)>(parts, w, Self::node(), cur);
        assert(parts.val(w).kids[1] == parts.1.val(w.part(1)));
    }
}

/// A moment: whole seconds from the start of 1970 on, fewer than none for one
/// before it, and the nanoseconds of one more.
///
/// The seconds are those of a 64-bit clock: a moment further off than they
/// reach is none.
#[derive(Clone, Copy, Debug, PartialEq, Eq, Structural)]
pub struct SystemTime {
    secs: i64,
    nanos: u32,
}

impl SystemTime {
    /// The whole seconds from the start of 1970 on.
    pub closed spec fn seconds(&self) -> i64 {
        self.secs
    }

    /// The nanoseconds past the whole seconds.
    pub closed spec fn nanoseconds(&self) -> u32 {
        self.nanos
    }

    /// The moment, unless the nanoseconds make up a second.
    pub fn new(secs: i64, nanos: u32) -> (result: Option<Self>)
        ensures
            match result {
                Some(moment) => {
                    &&& nanos < NANOS_PER_SEC
                    &&& moment.seconds() == secs
                    &&& moment.nanoseconds() == nanos
                },
                None => nanos >= NANOS_PER_SEC,
            },
    {
        if nanos < NANOS_PER_SEC {
            Some(SystemTime { secs, nanos })
        } else {
            None
        }
    }

    /// The moment so long after the start of 1970, unless it is too far off.
    pub fn after_epoch(span: Duration) -> (result: Option<Self>)
        ensures
            match result {
                Some(moment) => {
                    &&& moment.seconds() == span.seconds()
                    &&& moment.nanoseconds() == span.nanoseconds()
                },
                None => span.seconds() > i64::MAX,
            },
    {
        if span.as_secs() > i64::MAX as u64 {
            return None;
        }
        let nanos = span.subsec_nanos();
        Some(SystemTime { secs: span.as_secs() as i64, nanos })
    }

    /// The time since the start of 1970, unless the moment lies before it.
    pub fn since_epoch(&self) -> (result: Option<Duration>)
        ensures
            match result {
                Some(span) => {
                    &&& self.seconds() == span.seconds()
                    &&& self.nanoseconds() == span.nanoseconds()
                    &&& self.nanoseconds() < NANOS_PER_SEC
                },
                None => self.seconds() < 0,
            },
    {
        proof {
            use_type_invariant(self);
        }
        if self.secs < 0 {
            return None;
        }
        Some(Duration { secs: self.secs as u64, nanos: self.nanos })
    }

    #[verifier::type_invariant]
    spec fn below_a_second(self) -> bool {
        self.nanos < NANOS_PER_SEC
    }
}

/// The seconds of what was read as seconds and nanoseconds.
pub open spec fn secs_read(v: Val) -> u64 {
    match v.kids[0].head {
        Head::Scalar(Scalar::U64(secs)) => secs,
        _ => 0,
    }
}

/// What is read as seconds and nanoseconds of a moment, which is not too far
/// off.
pub open spec fn read_moment(cur: Cur) -> std::result::Result<(Val, Cur), Fault> {
    match read_span(cur) {
        Ok((v, end)) => if secs_read(v) > i64::MAX {
            Err(Fault::Message("SystemTime overflows the representable range"@))
        } else {
            Ok((v, end))
        },
        Err(fault) => Err(fault),
    }
}

impl StaticSchema for SystemTime {
    open spec fn node() -> Shape {
        <std::time::SystemTime>::node()
    }

    proof fn lemma_node() {
        <std::time::SystemTime>::lemma_node();
    }

    fn schema_node() -> SchemaNode {
        <std::time::SystemTime>::schema_node()
    }

    fn columns() -> usize {
        <std::time::SystemTime>::columns()
    }

    fn fixed_width() -> Option<usize> {
        None
    }
}

impl Modeled for SystemTime {
    open spec fn val(&self, w: Walk) -> Val {
        as_struct((self.seconds() as u64, self.nanoseconds()).val(w), Self::node())
    }

    open spec fn stands_for(&self, v: Val) -> bool {
        parts_stand((self.seconds() as u64, self.nanoseconds()), v, Self::node())
    }
}

impl SerializeColumns for SystemTime {
    open spec fn writes(&self) -> bool {
        self.seconds() >= 0 && self.nanoseconds() < NANOS_PER_SEC
    }

    open spec fn refusal(&self) -> Option<Fault> {
        if self.seconds() < 0 {
            Some(Fault::Message("SystemTime must be later than UNIX_EPOCH"@))
        } else {
            None
        }
    }

    open spec fn image(&self, w: Walk) -> Seq<Seq<u8>> {
        (self.seconds() as u64, self.nanoseconds()).image(w)
    }

    proof fn lemma_image(&self, w: Walk, base: nat, row: Row) {
        let parts = (self.seconds() as u64, self.nanoseconds());
        lemma_struct_image(&parts, w, Self::node(), base, row);
    }

    fn serialize_columns(&self, columns: &mut [Vec<u8>]) -> (result: Result<()>) {
        proof {
            lemma_struct_width(Self::node(), <(u64, u32)>::node());
            lemma_struct_width(<Duration>::node(), <(u64, u32)>::node());
        }
        match self.since_epoch() {
            Some(span) => {
                assert forall|w: Walk| #[trigger] span.image(w) == self.image(w) by {}
                span.serialize_columns(columns)
            },
            None => Err(Error::Message("SystemTime must be later than UNIX_EPOCH".to_owned())),
        }
    }
}

impl<'de> DeserializeColumns<'de> for SystemTime {
    open spec fn sound() -> bool {
        true
    }

    open spec fn read(cur: Cur) -> std::result::Result<(Val, Cur), Fault> {
        read_struct(Self::node(), read_moment(cur))
    }

    proof fn lemma_read(base: nat, cur: Cur) {
        lemma_struct_read::<(u64, u32)>(Self::node(), base, cur);
    }

    fn deserialize_columns(cursors: &mut [ColumnCursor<'de>]) -> (result: Result<Self>) {
        proof {
            lemma_struct_width(Self::node(), <(u64, u32)>::node());
            lemma_struct_width(<Duration>::node(), <(u64, u32)>::node());
        }
        match <Duration>::deserialize_columns(cursors) {
            Ok(span) => match SystemTime::after_epoch(span) {
                Some(moment) => Ok(moment),
                None => Err(
                    Error::Message("SystemTime overflows the representable range".to_owned()),
                ),
            },
            Err(error) => Err(error),
        }
    }
}

impl<'de> RoundTrip<'de> for SystemTime {
    proof fn lemma_read_back(&self, w: Walk, cur: Cur) {
        let parts = (self.seconds() as u64, self.nanoseconds());
        lemma_struct_back::<(u64, u32)>(parts, w, Self::node(), cur);
        assert(parts.val(w).kids[0] == parts.0.val(w.part(0)));
        assert(parts.val(w).kids[1] == parts.1.val(w.part(1)));
    }
}

} // verus!
