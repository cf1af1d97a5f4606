//! Wire values: the flat JSON-like shapes the services exchange.
//!
//! A request body or a response row is a flat object — an ordered list of
//! named scalar fields.  Numbers keep their wire form: an integral number
//! is carried as an integer, any other as its decimal text, so encoding a
//! stored row loses nothing.  A nested value can be carried through, but
//! only to be rejected by a decoder.

use crate::error::{AppError, ErrorKind};
use vstd::prelude::*;

verus! {

/// A scalar field value of a flat wire object.
#[derive(Clone, Debug, PartialEq, Eq)]
pub enum Scalar {
    Null,
    Bool(bool),
    Int(i64),
    /// A non-integral number, as its decimal text.
    Dec(String),
    Str(String),
    /// A nested array or object; decoders treat it as a type mismatch.
    Composite,
}

/// The mathematical model of a `Scalar`.
pub enum SVal {
    Null,
    Bool(bool),
    Int(int),
    Dec(Seq<char>),
    Str(Seq<char>),
    Composite,
}

impl View for Scalar {
    type V = SVal;

    open spec fn view(&self) -> SVal {
        match self {
            Scalar::Null => SVal::Null,
            Scalar::Bool(b) => SVal::Bool(*b),
            Scalar::Int(i) => SVal::Int(*i as int),
            Scalar::Dec(s) => SVal::Dec(s@),
            Scalar::Str(s) => SVal::Str(s@),
            Scalar::Composite => SVal::Composite,
        }
    }
}

/// A number as it travels on the wire: integral, or decimal text.
#[derive(Clone, Debug, PartialEq, Eq)]
pub enum Number {
    Int(i64),
    Dec(String),
}

/// The mathematical model of a `Number`.
pub enum NumV {
    Int(int),
    Dec(Seq<char>),
}

impl View for Number {
    type V = NumV;

    open spec fn view(&self) -> NumV {
        match self {
            Number::Int(i) => NumV::Int(*i as int),
            Number::Dec(s) => NumV::Dec(s@),
        }
    }
}

/// A flat wire object: named scalar fields in order.
#[derive(Clone, Debug, PartialEq, Eq)]
pub struct WireObj {
    pub fields: Vec<(String, Scalar)>,
}

impl View for WireObj {
    type V = Seq<(Seq<char>, SVal)>;

    open spec fn view(&self) -> Seq<(Seq<char>, SVal)> {
        self.fields@.map_values(|p: (String, Scalar)| (p.0@, p.1@))
    }
}

/// The value at the first occurrence of a key, if any.
pub open spec fn lookup(o: Seq<(Seq<char>, SVal)>, key: Seq<char>) -> Option<SVal>
    decreases o.len(),
{
    if o.len() == 0 {
        None
    } else if o[0].0 == key {
        Some(o[0].1)
    } else {
        lookup(o.drop_first(), key)
    }
}

/// How often a key occurs among the fields.
pub open spec fn key_count(o: Seq<(Seq<char>, SVal)>, key: Seq<char>) -> nat
    decreases o.len(),
{
    if o.len() == 0 {
        0
    } else {
        (if o[0].0 == key {
            1nat
        } else {
            0nat
        }) + key_count(o.drop_first(), key)
    }
}

/// A field read the way the decoders read one: at most one occurrence
/// of the key is accepted, and its value returned.
pub open spec fn field_of(o: Seq<(Seq<char>, SVal)>, key: Seq<char>) -> Result<Option<SVal>, ()> {
    if key_count(o, key) > 1 {
        Err(())
    } else {
        Ok(lookup(o, key))
    }
}

impl WireObj {
    pub fn new() -> (r: WireObj)
        ensures
            r@ == Seq::<(Seq<char>, SVal)>::empty(),
    {
        let r = WireObj { fields: Vec::new() };
        proof {
            assert(r@ =~= Seq::<(Seq<char>, SVal)>::empty());
        }
        r
    }

    /// Appends one named field.
    pub fn push_field(&mut self, key: &str, value: Scalar)
        ensures
            final(self)@ == old(self)@.push((key@, value@)),
    {
        let ghost value_v = value@;
        self.fields.push((key.to_owned(), value));
        proof {
            assert(self@ =~= old(self)@.push((key@, value_v)));
        }
    }

    /// How often a key occurs in this object.
    pub fn count_key(&self, key: &str) -> (n: u64)
        ensures
            n as nat == key_count(self@, key@),
    {
        let ghost o = self@;
        let mut n: u64 = 0;
        let mut i: usize = 0;
        proof {
            assert(o.skip(0) =~= o);
        }
        while i < self.fields.len()
            invariant
                i <= self.fields.len(),
                o == self@,
                self.fields@.len() == o.len(),
                n as nat + key_count(o.skip(i as int), key@) == key_count(o, key@),
                n <= i,
            decreases self.fields.len() - i,
        {
            let hit = crate::text::str_eq(self.fields[i].0.as_str(), key);
            proof {
                assert(o.skip(i as int)[0] == o[i as int]);
                assert(o[i as int] == (self.fields@[i as int].0@, self.fields@[i as int].1@));
                assert(o.skip(i as int).drop_first() =~= o.skip(i as int + 1));
            }
            if hit {
                n = n + 1;
            }
            i = i + 1;
        }
        n
    }

    /// The value at the first occurrence of a key.
    pub fn find_field(&self, key: &str) -> (r: Option<&Scalar>)
        ensures
            match r {
                Some(s) => lookup(self@, key@) == Some(s@),
                None => lookup(self@, key@) is None,
            },
    {
        let ghost o = self@;
        let mut i: usize = 0;
        proof {
            assert(o.skip(0) =~= o);
        }
        while i < self.fields.len()
            invariant
                i <= self.fields.len(),
                o == self@,
                self.fields@.len() == o.len(),
                lookup(o, key@) == lookup(o.skip(i as int), key@),
            decreases self.fields.len() - i,
        {
            let hit = crate::text::str_eq(self.fields[i].0.as_str(), key);
            proof {
                assert(o.skip(i as int)[0] == o[i as int]);
                assert(o[i as int] == (self.fields@[i as int].0@, self.fields@[i as int].1@));
                assert(o.skip(i as int).drop_first() =~= o.skip(i as int + 1));
            }
            if hit {
                return Some(&self.fields[i].1);
            }
            i = i + 1;
        }
        None
    }
}

/// A required string field: present exactly once, a string.
pub open spec fn str_field(o: Seq<(Seq<char>, SVal)>, key: Seq<char>) -> Result<Seq<char>, ()> {
    match field_of(o, key) {
        Err(()) => Err(()),
        Ok(f) => match f {
            Some(v) => match v {
                SVal::Str(n) => Ok(n),
                _ => Err(()),
            },
            None => Err(()),
        },
    }
}

/// An optional number field: absent or null is none; an integral or
/// decimal number is kept as it came; anything else is a mismatch.
pub open spec fn opt_num_field(o: Seq<(Seq<char>, SVal)>, key: Seq<char>) -> Result<
    Option<NumV>,
    (),
> {
    match field_of(o, key) {
        Err(()) => Err(()),
        Ok(f) => match f {
            None => Ok(None),
            Some(v) => match v {
                SVal::Null => Ok(None),
                SVal::Int(i) => Ok(Some(NumV::Int(i))),
                SVal::Dec(d) => Ok(Some(NumV::Dec(d))),
                _ => Err(()),
            },
        },
    }
}

/// An optional integer field: absent or null is none; only an integral
/// number is accepted.
pub open spec fn opt_int_field(o: Seq<(Seq<char>, SVal)>, key: Seq<char>) -> Result<
    Option<int>,
    (),
> {
    match field_of(o, key) {
        Err(()) => Err(()),
        Ok(f) => match f {
            None => Ok(None),
            Some(v) => match v {
                SVal::Null => Ok(None),
                SVal::Int(i) => Ok(Some(i)),
                _ => Err(()),
            },
        },
    }
}

/// Reads a required string field, with the decoders' duplicate check.
pub fn get_str_field(body: &WireObj, key: &str) -> (r: Result<String, AppError>)
    ensures
        match r {
            Ok(v) => str_field(body@, key@) == Ok::<Seq<char>, ()>(v@),
            Err(e) => str_field(body@, key@) is Err && e.kind == ErrorKind::Validation,
        },
{
    if body.count_key(key) > 1 {
        return Err(AppError::validation("duplicate field".to_owned()));
    }
    match body.find_field(key) {
        Some(s) => match s {
            Scalar::Str(n) => Ok(n.clone()),
            _ => Err(AppError::validation("expected a string".to_owned())),
        },
        None => Err(AppError::validation("missing field".to_owned())),
    }
}

/// Reads an optional number field, with the decoders' duplicate check.
pub fn get_opt_num_field(body: &WireObj, key: &str) -> (r: Result<Option<Number>, AppError>)
    ensures
        match r {
            Ok(v) => opt_num_field(body@, key@) == Ok::<Option<NumV>, ()>(
                match v {
                    Some(n) => Some(n@),
                    None => None,
                },
            ),
            Err(e) => opt_num_field(body@, key@) is Err && e.kind == ErrorKind::Validation,
        },
{
    if body.count_key(key) > 1 {
        return Err(AppError::validation("duplicate field".to_owned()));
    }
    match body.find_field(key) {
        Some(s) => match s {
            Scalar::Null => Ok(None),
            Scalar::Int(i) => Ok(Some(Number::Int(*i))),
            Scalar::Dec(d) => Ok(Some(Number::Dec(d.clone()))),
            _ => Err(AppError::validation("expected a number".to_owned())),
        },
        None => Ok(None),
    }
}

/// Reads an optional integer field, with the decoders' duplicate check.
pub fn get_opt_int_field(body: &WireObj, key: &str) -> (r: Result<Option<i64>, AppError>)
    ensures
        match r {
            Ok(v) => opt_int_field(body@, key@) == Ok::<Option<int>, ()>(
                match v {
                    Some(n) => Some(n as int),
                    None => None,
                },
            ),
            Err(e) => opt_int_field(body@, key@) is Err && e.kind == ErrorKind::Validation,
        },
{
    if body.count_key(key) > 1 {
        return Err(AppError::validation("duplicate field".to_owned()));
    }
    match body.find_field(key) {
        Some(s) => match s {
            Scalar::Null => Ok(None),
            Scalar::Int(i) => Ok(Some(*i)),
            _ => Err(AppError::validation("expected an integer".to_owned())),
        },
        None => Ok(None),
    }
}

/// A listing response: one key, and the encoded rows under it.
#[derive(Clone, Debug, PartialEq, Eq)]
pub struct Listing {
    pub key: String,
    pub rows: Vec<WireObj>,
}

/// The mathematical model of a `Listing`.
pub struct ListingModel {
    pub key: Seq<char>,
    pub rows: Seq<Seq<(Seq<char>, SVal)>>,
}

impl View for Listing {
    type V = ListingModel;

    open spec fn view(&self) -> ListingModel {
        ListingModel { key: self.key@, rows: self.rows@.map_values(|o: WireObj| o@) }
    }
}

} // verus!
