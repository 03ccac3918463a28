//! Values that are presented part by part: sequences, products, structs and
//! maps while they are being built.

use vstd::prelude::*;

use crate::error::{Error, Fault, Result};
use crate::schema::labels;
use crate::value::{entry, entry_vals, named_vals, vals, Head, Val, Value};

verus! {

/// A sequence of which some elements are there.
pub struct SeqSerializer {
    items: Vec<Value>,
}

impl View for SeqSerializer {
    type V = Seq<Val>;

    /// The elements so far.
    closed spec fn view(&self) -> Seq<Val> {
        vals(self.items@)
    }
}

impl SeqSerializer {
    /// A sequence without elements.
    pub fn new() -> (result: Self)
        ensures
            result@ == Seq::<Val>::empty(),
    {
        let result = SeqSerializer { items: Vec::new() };
        assert(result@ =~= Seq::<Val>::empty());
        result
    }

    /// Adds an element.
    pub fn serialize_element(&mut self, value: Value)
        ensures
            final(self)@ == old(self)@.push(value@),
    {
        let ghost before = self@;
        self.items.push(value);
        assert(self@ =~= before.push(value@));
    }

    /// The sequence.
    pub fn end(self) -> (result: Value)
        ensures
            result@ == (Val { head: Head::Sequence, kids: self@ }),
    {
        Value::Sequence(self.items)
    }
}

/// What positional fields belong to.
#[derive(Debug)]
pub enum Product {
    /// A tuple.
    Tuple,
    /// A tuple struct, by name.
    TupleStruct(String),
    /// A tuple variant, by position and name.
    TupleVariant(u64, String),
}

/// The head of the value that positional fields make up.
pub open spec fn product_head(product: Product) -> Head {
    match product {
        Product::Tuple => Head::Tuple,
        Product::TupleStruct(name) => Head::TupleStruct(name@),
        Product::TupleVariant(index, variant) => Head::TupleVariant(index, variant@),
    }
}

/// Positional fields: tuples, tuple structs, and tuple variants.
pub struct ProductSerializer {
    product: Product,
    fields: Vec<Value>,
}

impl View for ProductSerializer {
    type V = Val;

    /// The value that the fields so far make up.
    closed spec fn view(&self) -> Val {
        Val { head: product_head(self.product), kids: vals(self.fields@) }
    }
}

impl ProductSerializer {
    /// A product without fields.
    pub fn new(product: Product) -> (result: Self)
        ensures
            result@ == (Val { head: product_head(product), kids: seq![] }),
    {
        let result = ProductSerializer { product, fields: Vec::new() };
        assert(result@.kids =~= seq![]);
        result
    }

    /// Adds a field.
    pub fn serialize_next(&mut self, value: Value)
        ensures
            final(self)@ == (Val { head: old(self)@.head, kids: old(self)@.kids.push(value@) }),
    {
        let ghost before = self@;
        self.fields.push(value);
        assert(self@.kids =~= before.kids.push(value@));
    }

    /// The product.
    pub fn finish(self) -> (result: Value)
        ensures
            result@ == self@,
    {
        match self.product {
            Product::Tuple => Value::Tuple(self.fields),
            Product::TupleStruct(name) => Value::TupleStruct { name, fields: self.fields },
            Product::TupleVariant(index, variant) => Value::TupleVariant {
                index,
                variant,
                fields: self.fields,
            },
        }
    }
}

/// What named fields belong to.
#[derive(Debug)]
pub enum Record {
    /// A struct, by name.
    Struct(String),
    /// A struct variant, by position and name.
    StructVariant(u64, String),
}

/// The head of the value that fields of these names make up.
pub open spec fn record_head(record: Record, names: Seq<Seq<char>>) -> Head {
    match record {
        Record::Struct(name) => Head::Struct(name@, names),
        Record::StructVariant(index, variant) => Head::StructVariant(index, variant@, names),
    }
}

/// Named fields: structs and struct variants.
pub struct StructSerializer {
    record: Record,
    fields: Vec<(String, Value)>,
}

impl StructSerializer {
    /// What the fields belong to.
    pub closed spec fn record(&self) -> Record {
        self.record
    }

    /// The names of the fields so far.
    pub closed spec fn names(&self) -> Seq<Seq<char>> {
        labels(self.fields@)
    }

    /// The fields so far.
    pub closed spec fn fields(&self) -> Seq<Val> {
        named_vals(self.fields@)
    }

    /// A struct without fields.
    pub fn new(record: Record) -> (result: Self)
        ensures
            result.record() == record,
            result.names() == Seq::<Seq<char>>::empty(),
            result.fields() == Seq::<Val>::empty(),
    {
        let result = StructSerializer { record, fields: Vec::new() };
        assert(result.names() =~= Seq::<Seq<char>>::empty());
        assert(result.fields() =~= Seq::<Val>::empty());
        result
    }

    /// Adds a field.
    pub fn serialize_named(&mut self, key: &str, value: Value)
        ensures
            final(self).record() == old(self).record(),
            final(self).names() == old(self).names().push(key@),
            final(self).fields() == old(self).fields().push(value@),
    {
        let ghost names = self.names();
        let ghost fields = self.fields();
        self.fields.push((key.to_owned(), value));
        assert(self.names() =~= names.push(key@));
        assert(self.fields() =~= fields.push(value@));
    }

    /// Refuses to leave a field out: columnar rows must be complete.
    pub fn skip_field(&self, key: &str) -> (result: Result<()>)
        ensures
            result matches Err(error) && error@ == Fault::IncompleteRow,
    {
        Err(Error::IncompleteRow)
    }

    /// The struct.
    pub fn finish(self) -> (result: Value)
        ensures
            result@ == (Val { head: record_head(self.record(), self.names()), kids: self.fields() }),
    {
        match self.record {
            Record::Struct(name) => Value::Struct { name, fields: self.fields },
            Record::StructVariant(index, variant) => Value::StructVariant {
                index,
                variant,
                fields: self.fields,
            },
        }
    }
}

/// A map of which some entries are there, and perhaps the key of the next.
pub struct MapSerializer {
    entries: Vec<(Value, Value)>,
    awaiting_value: Option<Value>,
}

impl MapSerializer {
    /// The entries so far.
    pub closed spec fn entries(&self) -> Seq<Val> {
        entry_vals(self.entries@)
    }

    /// The key whose value is still to come.
    pub closed spec fn key(&self) -> Option<Val> {
        match self.awaiting_value {
            Some(key) => Some(key@),
            None => None,
        }
    }

    /// A map without entries.
    pub fn new() -> (result: Self)
        ensures
            result.entries() == Seq::<Val>::empty(),
            result.key() is None,
    {
        let result = MapSerializer { entries: Vec::new(), awaiting_value: None };
        assert(result.entries() =~= Seq::<Val>::empty());
        result
    }

    /// Adds the key of an entry. Two keys in a row are refused.
    pub fn serialize_key(&mut self, key: Value) -> (result: Result<()>)
        ensures
            final(self).entries() == old(self).entries(),
            match result {
                Ok(()) => old(self).key() is None && final(self).key() == Some(key@),
                Err(error) => {
                    &&& old(self).key() is Some
                    &&& final(self).key() == old(self).key()
                    &&& error@ == Fault::Message("map key serialized twice in a row"@)
                },
            },
    {
        if self.awaiting_value.is_some() {
            return Err(Error::Message("map key serialized twice in a row".to_owned()));
        }
        self.awaiting_value = Some(key);
        Ok(())
    }

    /// Adds the value of an entry. A value without a key is refused.
    pub fn serialize_value(&mut self, value: Value) -> (result: Result<()>)
        ensures
            final(self).key() is None,
            match result {
                Ok(()) => old(self).key() matches Some(key) && final(self).entries() == old(
                    self,
                ).entries().push(entry(key, value@)),
                Err(error) => {
                    &&& old(self).key() is None
                    &&& final(self).entries() == old(self).entries()
                    &&& error@ == Fault::Message("map value serialized without a key"@)
                },
            },
    {
        let ghost before = self.entries();
        let ghost held = self.key();
        let mut pending: Option<Value> = None;
        std::mem::swap(&mut pending, &mut self.awaiting_value);
        match pending {
            Some(key) => {
                let ghost k = key@;
                self.entries.push((key, value));
                assert(self.entries() =~= before.push(entry(k, value@)));
                Ok(())
            },
            None => Err(Error::Message("map value serialized without a key".to_owned())),
        }
    }

    /// The map. A key without a value is refused.
    pub fn end(self) -> (result: Result<Value>)
        ensures
            match result {
                Ok(value) => self.key() is None && value@ == (Val {
                    head: Head::Mapping,
                    kids: self.entries(),
                }),
                Err(error) => self.key() is Some && error@ == Fault::Message(
                    "map ended with a dangling key"@,
                ),
            },
    {
        if self.awaiting_value.is_some() {
            return Err(Error::Message("map ended with a dangling key".to_owned()));
        }
        Ok(Value::Mapping(self.entries))
    }
}

} // verus!
