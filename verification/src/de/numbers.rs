//! The machine's integers: each is read as an integer without bounds and
//! then narrowed to its width. An integer that does not fit is a custom
//! failure, whose message says so.

use crate::constraints::Constraints;
use crate::de::{narrowing_error, Decode, Decoder, Error};
use crate::error::ErrorKind;
use crate::tag::{self, Tag};

use vstd::prelude::*;

verus! {

impl<D: Decoder> Decode<D> for i8 {
    open spec fn decode_with_tag_spec(s: D::V, tag: Tag) -> Result<(i8, D::V), ErrorKind> {
        match D::integer_spec(s, tag, Constraints::unconstrained()) {
            Ok((value, next)) => if i8::MIN <= value <= i8::MAX {
                Ok((value as i8, next))
            } else {
                Err(ErrorKind::Custom)
            },
            Err(kind) => Err(kind),
        }
    }

    open spec fn decode_spec(s: D::V) -> Result<(i8, D::V), ErrorKind> {
        <Self as Decode<D>>::decode_with_tag_spec(s, Tag::universal(tag::INTEGER))
    }

    fn decode_with_tag(decoder: &mut D, tag: Tag) -> (r: Result<Self, D::Error>)
        ensures
            r is Err && D::integer_spec(old(decoder)@, tag, Constraints::unconstrained()) is Ok
                ==> r->Err_0.message() == "integer does not fit the target type"@,
    {
        match decoder.decode_integer(tag, &Constraints::none()) {
            Ok(value) => match value.to_i8() {
                Some(narrow) => Ok(narrow),
                None => Err(narrowing_error()),
            },
            Err(e) => Err(e),
        }
    }

    fn decode(decoder: &mut D) -> (r: Result<Self, D::Error>)
        ensures
            r is Err && D::integer_spec(
                old(decoder)@,
                Tag::universal(tag::INTEGER),
                Constraints::unconstrained(),
            ) is Ok ==> r->Err_0.message() == "integer does not fit the target type"@,
    {
        Self::decode_with_tag(decoder, Tag::new_universal(tag::INTEGER))
    }
}

impl<D: Decoder> Decode<D> for i16 {
    open spec fn decode_with_tag_spec(s: D::V, tag: Tag) -> Result<(i16, D::V), ErrorKind> {
        match D::integer_spec(s, tag, Constraints::unconstrained()) {
            Ok((value, next)) => if i16::MIN <= value <= i16::MAX {
                Ok((value as i16, next))
            } else {
                Err(ErrorKind::Custom)
            },
            Err(kind) => Err(kind),
        }
    }

    open spec fn decode_spec(s: D::V) -> Result<(i16, D::V), ErrorKind> {
        <Self as Decode<D>>::decode_with_tag_spec(s, Tag::universal(tag::INTEGER))
    }

    fn decode_with_tag(decoder: &mut D, tag: Tag) -> (r: Result<Self, D::Error>)
        ensures
            r is Err && D::integer_spec(old(decoder)@, tag, Constraints::unconstrained()) is Ok
                ==> r->Err_0.message() == "integer does not fit the target type"@,
    {
        match decoder.decode_integer(tag, &Constraints::none()) {
            Ok(value) => match value.to_i16() {
                Some(narrow) => Ok(narrow),
                None => Err(narrowing_error()),
            },
            Err(e) => Err(e),
        }
    }

    fn decode(decoder: &mut D) -> (r: Result<Self, D::Error>)
        ensures
            r is Err && D::integer_spec(
                old(decoder)@,
                Tag::universal(tag::INTEGER),
                Constraints::unconstrained(),
            ) is Ok ==> r->Err_0.message() == "integer does not fit the target type"@,
    {
        Self::decode_with_tag(decoder, Tag::new_universal(tag::INTEGER))
    }
}

impl<D: Decoder> Decode<D> for i32 {
    open spec fn decode_with_tag_spec(s: D::V, tag: Tag) -> Result<(i32, D::V), ErrorKind> {
        match D::integer_spec(s, tag, Constraints::unconstrained()) {
            Ok((value, next)) => if i32::MIN <= value <= i32::MAX {
                Ok((value as i32, next))
            } else {
                Err(ErrorKind::Custom)
            },
            Err(kind) => Err(kind),
        }
    }

    open spec fn decode_spec(s: D::V) -> Result<(i32, D::V), ErrorKind> {
        <Self as Decode<D>>::decode_with_tag_spec(s, Tag::universal(tag::INTEGER))
    }

    fn decode_with_tag(decoder: &mut D, tag: Tag) -> (r: Result<Self, D::Error>)
        ensures
            r is Err && D::integer_spec(old(decoder)@, tag, Constraints::unconstrained()) is Ok
                ==> r->Err_0.message() == "integer does not fit the target type"@,
    {
        match decoder.decode_integer(tag, &Constraints::none()) {
            Ok(value) => match value.to_i32() {
                Some(narrow) => Ok(narrow),
                None => Err(narrowing_error()),
            },
            Err(e) => Err(e),
        }
    }

    fn decode(decoder: &mut D) -> (r: Result<Self, D::Error>)
        ensures
            r is Err && D::integer_spec(
                old(decoder)@,
                Tag::universal(tag::INTEGER),
                Constraints::unconstrained(),
            ) is Ok ==> r->Err_0.message() == "integer does not fit the target type"@,
    {
        Self::decode_with_tag(decoder, Tag::new_universal(tag::INTEGER))
    }
}

impl<D: Decoder> Decode<D> for i64 {
    open spec fn decode_with_tag_spec(s: D::V, tag: Tag) -> Result<(i64, D::V), ErrorKind> {
        match D::integer_spec(s, tag, Constraints::unconstrained()) {
            Ok((value, next)) => if i64::MIN <= value <= i64::MAX {
                Ok((value as i64, next))
            } else {
                Err(ErrorKind::Custom)
            },
            Err(kind) => Err(kind),
        }
    }

    open spec fn decode_spec(s: D::V) -> Result<(i64, D::V), ErrorKind> {
        <Self as Decode<D>>::decode_with_tag_spec(s, Tag::universal(tag::INTEGER))
    }

    fn decode_with_tag(decoder: &mut D, tag: Tag) -> (r: Result<Self, D::Error>)
        ensures
            r is Err && D::integer_spec(old(decoder)@, tag, Constraints::unconstrained()) is Ok
                ==> r->Err_0.message() == "integer does not fit the target type"@,
    {
        match decoder.decode_integer(tag, &Constraints::none()) {
            Ok(value) => match value.to_i64() {
                Some(narrow) => Ok(narrow),
                None => Err(narrowing_error()),
            },
            Err(e) => Err(e),
        }
    }

    fn decode(decoder: &mut D) -> (r: Result<Self, D::Error>)
        ensures
            r is Err && D::integer_spec(
                old(decoder)@,
                Tag::universal(tag::INTEGER),
                Constraints::unconstrained(),
            ) is Ok ==> r->Err_0.message() == "integer does not fit the target type"@,
    {
        Self::decode_with_tag(decoder, Tag::new_universal(tag::INTEGER))
    }
}

impl<D: Decoder> Decode<D> for i128 {
    open spec fn decode_with_tag_spec(s: D::V, tag: Tag) -> Result<(i128, D::V), ErrorKind> {
        match D::integer_spec(s, tag, Constraints::unconstrained()) {
            Ok((value, next)) => if i128::MIN <= value <= i128::MAX {
                Ok((value as i128, next))
            } else {
                Err(ErrorKind::Custom)
            },
            Err(kind) => Err(kind),
        }
    }

    open spec fn decode_spec(s: D::V) -> Result<(i128, D::V), ErrorKind> {
        <Self as Decode<D>>::decode_with_tag_spec(s, Tag::universal(tag::INTEGER))
    }

    fn decode_with_tag(decoder: &mut D, tag: Tag) -> (r: Result<Self, D::Error>)
        ensures
            r is Err && D::integer_spec(old(decoder)@, tag, Constraints::unconstrained()) is Ok
                ==> r->Err_0.message() == "integer does not fit the target type"@,
    {
        match decoder.decode_integer(tag, &Constraints::none()) {
            Ok(value) => match value.to_i128() {
                Some(narrow) => Ok(narrow),
                None => Err(narrowing_error()),
            },
            Err(e) => Err(e),
        }
    }

    fn decode(decoder: &mut D) -> (r: Result<Self, D::Error>)
        ensures
            r is Err && D::integer_spec(
                old(decoder)@,
                Tag::universal(tag::INTEGER),
                Constraints::unconstrained(),
            ) is Ok ==> r->Err_0.message() == "integer does not fit the target type"@,
    {
        Self::decode_with_tag(decoder, Tag::new_universal(tag::INTEGER))
    }
}

impl<D: Decoder> Decode<D> for isize {
    open spec fn decode_with_tag_spec(s: D::V, tag: Tag) -> Result<(isize, D::V), ErrorKind> {
        match D::integer_spec(s, tag, Constraints::unconstrained()) {
            Ok((value, next)) => if isize::MIN <= value <= isize::MAX {
                Ok((value as isize, next))
            } else {
                Err(ErrorKind::Custom)
            },
            Err(kind) => Err(kind),
        }
    }

    open spec fn decode_spec(s: D::V) -> Result<(isize, D::V), ErrorKind> {
        <Self as Decode<D>>::decode_with_tag_spec(s, Tag::universal(tag::INTEGER))
    }

    fn decode_with_tag(decoder: &mut D, tag: Tag) -> (r: Result<Self, D::Error>)
        ensures
            r is Err && D::integer_spec(old(decoder)@, tag, Constraints::unconstrained()) is Ok
                ==> r->Err_0.message() == "integer does not fit the target type"@,
    {
        match decoder.decode_integer(tag, &Constraints::none()) {
            Ok(value) => match value.to_isize() {
                Some(narrow) => Ok(narrow),
                None => Err(narrowing_error()),
            },
            Err(e) => Err(e),
        }
    }

    fn decode(decoder: &mut D) -> (r: Result<Self, D::Error>)
        ensures
            r is Err && D::integer_spec(
                old(decoder)@,
                Tag::universal(tag::INTEGER),
                Constraints::unconstrained(),
            ) is Ok ==> r->Err_0.message() == "integer does not fit the target type"@,
    {
        Self::decode_with_tag(decoder, Tag::new_universal(tag::INTEGER))
    }
}

impl<D: Decoder> Decode<D> for u8 {
    open spec fn decode_with_tag_spec(s: D::V, tag: Tag) -> Result<(u8, D::V), ErrorKind> {
        match D::integer_spec(s, tag, Constraints::unconstrained()) {
            Ok((value, next)) => if u8::MIN <= value <= u8::MAX {
                Ok((value as u8, next))
            } else {
                Err(ErrorKind::Custom)
            },
            Err(kind) => Err(kind),
        }
    }

    open spec fn decode_spec(s: D::V) -> Result<(u8, D::V), ErrorKind> {
        <Self as Decode<D>>::decode_with_tag_spec(s, Tag::universal(tag::INTEGER))
    }

    fn decode_with_tag(decoder: &mut D, tag: Tag) -> (r: Result<Self, D::Error>)
        ensures
            r is Err && D::integer_spec(old(decoder)@, tag, Constraints::unconstrained()) is Ok
                ==> r->Err_0.message() == "integer does not fit the target type"@,
    {
        match decoder.decode_integer(tag, &Constraints::none()) {
            Ok(value) => match value.to_u8() {
                Some(narrow) => Ok(narrow),
                None => Err(narrowing_error()),
            },
            Err(e) => Err(e),
        }
    }

    fn decode(decoder: &mut D) -> (r: Result<Self, D::Error>)
        ensures
            r is Err && D::integer_spec(
                old(decoder)@,
                Tag::universal(tag::INTEGER),
                Constraints::unconstrained(),
            ) is Ok ==> r->Err_0.message() == "integer does not fit the target type"@,
    {
        Self::decode_with_tag(decoder, Tag::new_universal(tag::INTEGER))
    }
}

impl<D: Decoder> Decode<D> for u16 {
    open spec fn decode_with_tag_spec(s: D::V, tag: Tag) -> Result<(u16, D::V), ErrorKind> {
        match D::integer_spec(s, tag, Constraints::unconstrained()) {
            Ok((value, next)) => if u16::MIN <= value <= u16::MAX {
                Ok((value as u16, next))
            } else {
                Err(ErrorKind::Custom)
            },
            Err(kind) => Err(kind),
        }
    }

    open spec fn decode_spec(s: D::V) -> Result<(u16, D::V), ErrorKind> {
        <Self as Decode<D>>::decode_with_tag_spec(s, Tag::universal(tag::INTEGER))
    }

    fn decode_with_tag(decoder: &mut D, tag: Tag) -> (r: Result<Self, D::Error>)
        ensures
            r is Err && D::integer_spec(old(decoder)@, tag, Constraints::unconstrained()) is Ok
                ==> r->Err_0.message() == "integer does not fit the target type"@,
    {
        match decoder.decode_integer(tag, &Constraints::none()) {
            Ok(value) => match value.to_u16() {
                Some(narrow) => Ok(narrow),
                None => Err(narrowing_error()),
            },
            Err(e) => Err(e),
        }
    }

    fn decode(decoder: &mut D) -> (r: Result<Self, D::Error>)
        ensures
            r is Err && D::integer_spec(
                old(decoder)@,
                Tag::universal(tag::INTEGER),
                Constraints::unconstrained(),
            ) is Ok ==> r->Err_0.message() == "integer does not fit the target type"@,
    {
        Self::decode_with_tag(decoder, Tag::new_universal(tag::INTEGER))
    }
}

impl<D: Decoder> Decode<D> for u32 {
    open spec fn decode_with_tag_spec(s: D::V, tag: Tag) -> Result<(u32, D::V), ErrorKind> {
        match D::integer_spec(s, tag, Constraints::unconstrained()) {
            Ok((value, next)) => if u32::MIN <= value <= u32::MAX {
                Ok((value as u32, next))
            } else {
                Err(ErrorKind::Custom)
            },
            Err(kind) => Err(kind),
        }
    }

    open spec fn decode_spec(s: D::V) -> Result<(u32, D::V), ErrorKind> {
        <Self as Decode<D>>::decode_with_tag_spec(s, Tag::universal(tag::INTEGER))
    }

    fn decode_with_tag(decoder: &mut D, tag: Tag) -> (r: Result<Self, D::Error>)
        ensures
            r is Err && D::integer_spec(old(decoder)@, tag, Constraints::unconstrained()) is Ok
                ==> r->Err_0.message() == "integer does not fit the target type"@,
    {
        match decoder.decode_integer(tag, &Constraints::none()) {
            Ok(value) => match value.to_u32() {
                Some(narrow) => Ok(narrow),
                None => Err(narrowing_error()),
            },
            Err(e) => Err(e),
        }
    }

    fn decode(decoder: &mut D) -> (r: Result<Self, D::Error>)
        ensures
            r is Err && D::integer_spec(
                old(decoder)@,
                Tag::universal(tag::INTEGER),
                Constraints::unconstrained(),
            ) is Ok ==> r->Err_0.message() == "integer does not fit the target type"@,
    {
        Self::decode_with_tag(decoder, Tag::new_universal(tag::INTEGER))
    }
}

impl<D: Decoder> Decode<D> for u64 {
    open spec fn decode_with_tag_spec(s: D::V, tag: Tag) -> Result<(u64, D::V), ErrorKind> {
        match D::integer_spec(s, tag, Constraints::unconstrained()) {
            Ok((value, next)) => if u64::MIN <= value <= u64::MAX {
                Ok((value as u64, next))
            } else {
                Err(ErrorKind::Custom)
            },
            Err(kind) => Err(kind),
        }
    }

    open spec fn decode_spec(s: D::V) -> Result<(u64, D::V), ErrorKind> {
        <Self as Decode<D>>::decode_with_tag_spec(s, Tag::universal(tag::INTEGER))
    }

    fn decode_with_tag(decoder: &mut D, tag: Tag) -> (r: Result<Self, D::Error>)
        ensures
            r is Err && D::integer_spec(old(decoder)@, tag, Constraints::unconstrained()) is Ok
                ==> r->Err_0.message() == "integer does not fit the target type"@,
    {
        match decoder.decode_integer(tag, &Constraints::none()) {
            Ok(value) => match value.to_u64() {
                Some(narrow) => Ok(narrow),
                None => Err(narrowing_error()),
            },
            Err(e) => Err(e),
        }
    }

    fn decode(decoder: &mut D) -> (r: Result<Self, D::Error>)
        ensures
            r is Err && D::integer_spec(
                old(decoder)@,
                Tag::universal(tag::INTEGER),
                Constraints::unconstrained(),
            ) is Ok ==> r->Err_0.message() == "integer does not fit the target type"@,
    {
        Self::decode_with_tag(decoder, Tag::new_universal(tag::INTEGER))
    }
}

impl<D: Decoder> Decode<D> for u128 {
    open spec fn decode_with_tag_spec(s: D::V, tag: Tag) -> Result<(u128, D::V), ErrorKind> {
        match D::integer_spec(s, tag, Constraints::unconstrained()) {
            Ok((value, next)) => if u128::MIN <= value <= u128::MAX {
                Ok((value as u128, next))
            } else {
                Err(ErrorKind::Custom)
            },
            Err(kind) => Err(kind),
        }
    }

    open spec fn decode_spec(s: D::V) -> Result<(u128, D::V), ErrorKind> {
        <Self as Decode<D>>::decode_with_tag_spec(s, Tag::universal(tag::INTEGER))
    }

    fn decode_with_tag(decoder: &mut D, tag: Tag) -> (r: Result<Self, D::Error>)
        ensures
            r is Err && D::integer_spec(old(decoder)@, tag, Constraints::unconstrained()) is Ok
                ==> r->Err_0.message() == "integer does not fit the target type"@,
    {
        match decoder.decode_integer(tag, &Constraints::none()) {
            Ok(value) => match value.to_u128() {
                Some(narrow) => Ok(narrow),
                None => Err(narrowing_error()),
            },
            Err(e) => Err(e),
        }
    }

    fn decode(decoder: &mut D) -> (r: Result<Self, D::Error>)
        ensures
            r is Err && D::integer_spec(
                old(decoder)@,
                Tag::universal(tag::INTEGER),
                Constraints::unconstrained(),
            ) is Ok ==> r->Err_0.message() == "integer does not fit the target type"@,
    {
        Self::decode_with_tag(decoder, Tag::new_universal(tag::INTEGER))
    }
}

impl<D: Decoder> Decode<D> for usize {
    open spec fn decode_with_tag_spec(s: D::V, tag: Tag) -> Result<(usize, D::V), ErrorKind> {
        match D::integer_spec(s, tag, Constraints::unconstrained()) {
            Ok((value, next)) => if usize::MIN <= value <= usize::MAX {
                Ok((value as usize, next))
            } else {
                Err(ErrorKind::Custom)
            },
            Err(kind) => Err(kind),
        }
    }

    open spec fn decode_spec(s: D::V) -> Result<(usize, D::V), ErrorKind> {
        <Self as Decode<D>>::decode_with_tag_spec(s, Tag::universal(tag::INTEGER))
    }

    fn decode_with_tag(decoder: &mut D, tag: Tag) -> (r: Result<Self, D::Error>)
        ensures
            r is Err && D::integer_spec(old(decoder)@, tag, Constraints::unconstrained()) is Ok
                ==> r->Err_0.message() == "integer does not fit the target type"@,
    {
        match decoder.decode_integer(tag, &Constraints::none()) {
            Ok(value) => match value.to_usize() {
                Some(narrow) => Ok(narrow),
                None => Err(narrowing_error()),
            },
            Err(e) => Err(e),
        }
    }

    fn decode(decoder: &mut D) -> (r: Result<Self, D::Error>)
        ensures
            r is Err && D::integer_spec(
                old(decoder)@,
                Tag::universal(tag::INTEGER),
                Constraints::unconstrained(),
            ) is Ok ==> r->Err_0.message() == "integer does not fit the target type"@,
    {
        Self::decode_with_tag(decoder, Tag::new_universal(tag::INTEGER))
    }
}

} // verus!
