//! The machine's integers: each is written as an integer without bounds.

use crate::constraints::Constraints;
use crate::enc::{widening_error, Encode, Encoder};
use crate::error::ErrorKind;
use crate::integer::Integer;
use crate::tag::{self, Tag};
use vstd::prelude::*;

verus! {

impl<E: Encoder> Encode<E> for i8 {
    open spec fn encode_with_tag_spec(value: i8, s: E::V, tag: Tag) -> Result<E::V, ErrorKind> {
        E::integer_spec(s, tag, value as int, Constraints::unconstrained())
    }

    open spec fn encode_spec(value: i8, s: E::V) -> Result<E::V, ErrorKind> {
        <Self as Encode<E>>::encode_with_tag_spec(value, s, Tag::universal(tag::INTEGER))
    }

    fn encode_with_tag(&self, encoder: &mut E, tag: Tag) -> (r: Result<(), E::Error>) {
        match Integer::from_i8(*self) {
            Some(value) => encoder.encode_integer(tag, &value, &Constraints::none()),
            None => Err(widening_error()),
        }
    }

    fn encode(&self, encoder: &mut E) -> (r: Result<(), E::Error>) {
        self.encode_with_tag(encoder, Tag::new_universal(tag::INTEGER))
    }
}

impl<E: Encoder> Encode<E> for i16 {
    open spec fn encode_with_tag_spec(value: i16, s: E::V, tag: Tag) -> Result<E::V, ErrorKind> {
        E::integer_spec(s, tag, value as int, Constraints::unconstrained())
    }

    open spec fn encode_spec(value: i16, s: E::V) -> Result<E::V, ErrorKind> {
        <Self as Encode<E>>::encode_with_tag_spec(value, s, Tag::universal(tag::INTEGER))
    }

    fn encode_with_tag(&self, encoder: &mut E, tag: Tag) -> (r: Result<(), E::Error>) {
        match Integer::from_i16(*self) {
            Some(value) => encoder.encode_integer(tag, &value, &Constraints::none()),
            None => Err(widening_error()),
        }
    }

    fn encode(&self, encoder: &mut E) -> (r: Result<(), E::Error>) {
        self.encode_with_tag(encoder, Tag::new_universal(tag::INTEGER))
    }
}

impl<E: Encoder> Encode<E> for i32 {
    open spec fn encode_with_tag_spec(value: i32, s: E::V, tag: Tag) -> Result<E::V, ErrorKind> {
        E::integer_spec(s, tag, value as int, Constraints::unconstrained())
    }

    open spec fn encode_spec(value: i32, s: E::V) -> Result<E::V, ErrorKind> {
        <Self as Encode<E>>::encode_with_tag_spec(value, s, Tag::universal(tag::INTEGER))
    }

    fn encode_with_tag(&self, encoder: &mut E, tag: Tag) -> (r: Result<(), E::Error>) {
        match Integer::from_i32(*self) {
            Some(value) => encoder.encode_integer(tag, &value, &Constraints::none()),
            None => Err(widening_error()),
        }
    }

    fn encode(&self, encoder: &mut E) -> (r: Result<(), E::Error>) {
        self.encode_with_tag(encoder, Tag::new_universal(tag::INTEGER))
    }
}

impl<E: Encoder> Encode<E> for i64 {
    open spec fn encode_with_tag_spec(value: i64, s: E::V, tag: Tag) -> Result<E::V, ErrorKind> {
        E::integer_spec(s, tag, value as int, Constraints::unconstrained())
    }

    open spec fn encode_spec(value: i64, s: E::V) -> Result<E::V, ErrorKind> {
        <Self as Encode<E>>::encode_with_tag_spec(value, s, Tag::universal(tag::INTEGER))
    }

    fn encode_with_tag(&self, encoder: &mut E, tag: Tag) -> (r: Result<(), E::Error>) {
        match Integer::from_i64(*self) {
            Some(value) => encoder.encode_integer(tag, &value, &Constraints::none()),
            None => Err(widening_error()),
        }
    }

    fn encode(&self, encoder: &mut E) -> (r: Result<(), E::Error>) {
        self.encode_with_tag(encoder, Tag::new_universal(tag::INTEGER))
    }
}

impl<E: Encoder> Encode<E> for i128 {
    open spec fn encode_with_tag_spec(value: i128, s: E::V, tag: Tag) -> Result<E::V, ErrorKind> {
        E::integer_spec(s, tag, value as int, Constraints::unconstrained())
    }

    open spec fn encode_spec(value: i128, s: E::V) -> Result<E::V, ErrorKind> {
        <Self as Encode<E>>::encode_with_tag_spec(value, s, Tag::universal(tag::INTEGER))
    }

    fn encode_with_tag(&self, encoder: &mut E, tag: Tag) -> (r: Result<(), E::Error>) {
        match Integer::from_i128(*self) {
            Some(value) => encoder.encode_integer(tag, &value, &Constraints::none()),
            None => Err(widening_error()),
        }
    }

    fn encode(&self, encoder: &mut E) -> (r: Result<(), E::Error>) {
        self.encode_with_tag(encoder, Tag::new_universal(tag::INTEGER))
    }
}

impl<E: Encoder> Encode<E> for isize {
    open spec fn encode_with_tag_spec(value: isize, s: E::V, tag: Tag) -> Result<E::V, ErrorKind> {
        E::integer_spec(s, tag, value as int, Constraints::unconstrained())
    }

    open spec fn encode_spec(value: isize, s: E::V) -> Result<E::V, ErrorKind> {
        <Self as Encode<E>>::encode_with_tag_spec(value, s, Tag::universal(tag::INTEGER))
    }

    fn encode_with_tag(&self, encoder: &mut E, tag: Tag) -> (r: Result<(), E::Error>) {
        match Integer::from_isize(*self) {
            Some(value) => encoder.encode_integer(tag, &value, &Constraints::none()),
            None => Err(widening_error()),
        }
    }

    fn encode(&self, encoder: &mut E) -> (r: Result<(), E::Error>) {
        self.encode_with_tag(encoder, Tag::new_universal(tag::INTEGER))
    }
}

impl<E: Encoder> Encode<E> for u8 {
    open spec fn encode_with_tag_spec(value: u8, s: E::V, tag: Tag) -> Result<E::V, ErrorKind> {
        E::integer_spec(s, tag, value as int, Constraints::unconstrained())
    }

    open spec fn encode_spec(value: u8, s: E::V) -> Result<E::V, ErrorKind> {
        <Self as Encode<E>>::encode_with_tag_spec(value, s, Tag::universal(tag::INTEGER))
    }

    fn encode_with_tag(&self, encoder: &mut E, tag: Tag) -> (r: Result<(), E::Error>) {
        match Integer::from_u8(*self) {
            Some(value) => encoder.encode_integer(tag, &value, &Constraints::none()),
            None => Err(widening_error()),
        }
    }

    fn encode(&self, encoder: &mut E) -> (r: Result<(), E::Error>) {
        self.encode_with_tag(encoder, Tag::new_universal(tag::INTEGER))
    }
}

impl<E: Encoder> Encode<E> for u16 {
    open spec fn encode_with_tag_spec(value: u16, s: E::V, tag: Tag) -> Result<E::V, ErrorKind> {
        E::integer_spec(s, tag, value as int, Constraints::unconstrained())
    }

    open spec fn encode_spec(value: u16, s: E::V) -> Result<E::V, ErrorKind> {
        <Self as Encode<E>>::encode_with_tag_spec(value, s, Tag::universal(tag::INTEGER))
    }

    fn encode_with_tag(&self, encoder: &mut E, tag: Tag) -> (r: Result<(), E::Error>) {
        match Integer::from_u16(*self) {
            Some(value) => encoder.encode_integer(tag, &value, &Constraints::none()),
            None => Err(widening_error()),
        }
    }

    fn encode(&self, encoder: &mut E) -> (r: Result<(), E::Error>) {
        self.encode_with_tag(encoder, Tag::new_universal(tag::INTEGER))
    }
}

impl<E: Encoder> Encode<E> for u32 {
    open spec fn encode_with_tag_spec(value: u32, s: E::V, tag: Tag) -> Result<E::V, ErrorKind> {
        E::integer_spec(s, tag, value as int, Constraints::unconstrained())
    }

    open spec fn encode_spec(value: u32, s: E::V) -> Result<E::V, ErrorKind> {
        <Self as Encode<E>>::encode_with_tag_spec(value, s, Tag::universal(tag::INTEGER))
    }

    fn encode_with_tag(&self, encoder: &mut E, tag: Tag) -> (r: Result<(), E::Error>) {
        match Integer::from_u32(*self) {
            Some(value) => encoder.encode_integer(tag, &value, &Constraints::none()),
            None => Err(widening_error()),
        }
    }

    fn encode(&self, encoder: &mut E) -> (r: Result<(), E::Error>) {
        self.encode_with_tag(encoder, Tag::new_universal(tag::INTEGER))
    }
}

impl<E: Encoder> Encode<E> for u64 {
    open spec fn encode_with_tag_spec(value: u64, s: E::V, tag: Tag) -> Result<E::V, ErrorKind> {
        E::integer_spec(s, tag, value as int, Constraints::unconstrained())
    }

    open spec fn encode_spec(value: u64, s: E::V) -> Result<E::V, ErrorKind> {
        <Self as Encode<E>>::encode_with_tag_spec(value, s, Tag::universal(tag::INTEGER))
    }

    fn encode_with_tag(&self, encoder: &mut E, tag: Tag) -> (r: Result<(), E::Error>) {
        match Integer::from_u64(*self) {
            Some(value) => encoder.encode_integer(tag, &value, &Constraints::none()),
            None => Err(widening_error()),
        }
    }

    fn encode(&self, encoder: &mut E) -> (r: Result<(), E::Error>) {
        self.encode_with_tag(encoder, Tag::new_universal(tag::INTEGER))
    }
}

impl<E: Encoder> Encode<E> for u128 {
    open spec fn encode_with_tag_spec(value: u128, s: E::V, tag: Tag) -> Result<E::V, ErrorKind> {
        if value <= i128::MAX {
            E::integer_spec(s, tag, value as int, Constraints::unconstrained())
        } else {
            Err(ErrorKind::Custom)
        }
    }

    open spec fn encode_spec(value: u128, s: E::V) -> Result<E::V, ErrorKind> {
        <Self as Encode<E>>::encode_with_tag_spec(value, s, Tag::universal(tag::INTEGER))
    }

    fn encode_with_tag(&self, encoder: &mut E, tag: Tag) -> (r: Result<(), E::Error>) {
        match Integer::from_u128(*self) {
            Some(value) => encoder.encode_integer(tag, &value, &Constraints::none()),
            None => Err(widening_error()),
        }
    }

    fn encode(&self, encoder: &mut E) -> (r: Result<(), E::Error>) {
        self.encode_with_tag(encoder, Tag::new_universal(tag::INTEGER))
    }
}

impl<E: Encoder> Encode<E> for usize {
    open spec fn encode_with_tag_spec(value: usize, s: E::V, tag: Tag) -> Result<E::V, ErrorKind> {
        E::integer_spec(s, tag, value as int, Constraints::unconstrained())
    }

    open spec fn encode_spec(value: usize, s: E::V) -> Result<E::V, ErrorKind> {
        <Self as Encode<E>>::encode_with_tag_spec(value, s, Tag::universal(tag::INTEGER))
    }

    fn encode_with_tag(&self, encoder: &mut E, tag: Tag) -> (r: Result<(), E::Error>) {
        match Integer::from_usize(*self) {
            Some(value) => encoder.encode_integer(tag, &value, &Constraints::none()),
            None => Err(widening_error()),
        }
    }

    fn encode(&self, encoder: &mut E) -> (r: Result<(), E::Error>) {
        self.encode_with_tag(encoder, Tag::new_universal(tag::INTEGER))
    }
}

} // verus!
