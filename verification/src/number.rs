//! The integer types a number can be decoded into, and the range check that
//! fits a scanned value into each of them.

use vstd::prelude::*;

verus! {

/// An integer type that a scanned number can be fitted into.
pub trait Integer: Sized {
    /// The value of this type that equals `i`, if the type has one.
    spec fn of(i: int) -> Option<Self>;

    /// `n` as a value of this type, or nothing where it is out of range.
    fn from_u64(n: u64) -> (r: Option<Self>)
        ensures
            r == Self::of(n as int),
    ;

    /// `n` as a value of this type, or nothing where it is out of range.
    fn from_i64(n: i64) -> (r: Option<Self>)
        ensures
            r == Self::of(n as int),
    ;
}

/// The `i8` that equals `i`, if there is one.
pub open spec fn fit_i8(i: int) -> Option<i8> {
    if i8::MIN <= i <= i8::MAX {
        Some(i as i8)
    } else {
        None
    }
}

/// `<i8 as num_traits::FromPrimitive>::from_u64`, which gives `n` as an
/// `i8` where `i8` can represent it and nothing otherwise.
#[verifier::external_body]
fn i8_from_u64(n: u64) -> (r: Option<i8>)
    ensures
        r == fit_i8(n as int),
{
    <i8 as num_traits::FromPrimitive>::from_u64(n)
}

/// `<i8 as num_traits::FromPrimitive>::from_i64`, which gives `n` as an
/// `i8` where `i8` can represent it and nothing otherwise.
#[verifier::external_body]
fn i8_from_i64(n: i64) -> (r: Option<i8>)
    ensures
        r == fit_i8(n as int),
{
    <i8 as num_traits::FromPrimitive>::from_i64(n)
}

impl Integer for i8 {
    open spec fn of(i: int) -> Option<i8> {
        fit_i8(i)
    }

    fn from_u64(n: u64) -> (r: Option<i8>) {
        i8_from_u64(n)
    }

    fn from_i64(n: i64) -> (r: Option<i8>) {
        i8_from_i64(n)
    }
}

/// The `i16` that equals `i`, if there is one.
pub open spec fn fit_i16(i: int) -> Option<i16> {
    if i16::MIN <= i <= i16::MAX {
        Some(i as i16)
    } else {
        None
    }
}

/// `<i16 as num_traits::FromPrimitive>::from_u64`, which gives `n` as an
/// `i16` where `i16` can represent it and nothing otherwise.
#[verifier::external_body]
fn i16_from_u64(n: u64) -> (r: Option<i16>)
    ensures
        r == fit_i16(n as int),
{
    <i16 as num_traits::FromPrimitive>::from_u64(n)
}

/// `<i16 as num_traits::FromPrimitive>::from_i64`, which gives `n` as an
/// `i16` where `i16` can represent it and nothing otherwise.
#[verifier::external_body]
fn i16_from_i64(n: i64) -> (r: Option<i16>)
    ensures
        r == fit_i16(n as int),
{
    <i16 as num_traits::FromPrimitive>::from_i64(n)
}

impl Integer for i16 {
    open spec fn of(i: int) -> Option<i16> {
        fit_i16(i)
    }

    fn from_u64(n: u64) -> (r: Option<i16>) {
        i16_from_u64(n)
    }

    fn from_i64(n: i64) -> (r: Option<i16>) {
        i16_from_i64(n)
    }
}

/// The `i32` that equals `i`, if there is one.
pub open spec fn fit_i32(i: int) -> Option<i32> {
    if i32::MIN <= i <= i32::MAX {
        Some(i as i32)
    } else {
        None
    }
}

/// `<i32 as num_traits::FromPrimitive>::from_u64`, which gives `n` as an
/// `i32` where `i32` can represent it and nothing otherwise.
#[verifier::external_body]
fn i32_from_u64(n: u64) -> (r: Option<i32>)
    ensures
        r == fit_i32(n as int),
{
    <i32 as num_traits::FromPrimitive>::from_u64(n)
}

/// `<i32 as num_traits::FromPrimitive>::from_i64`, which gives `n` as an
/// `i32` where `i32` can represent it and nothing otherwise.
#[verifier::external_body]
fn i32_from_i64(n: i64) -> (r: Option<i32>)
    ensures
        r == fit_i32(n as int),
{
    <i32 as num_traits::FromPrimitive>::from_i64(n)
}

impl Integer for i32 {
    open spec fn of(i: int) -> Option<i32> {
        fit_i32(i)
    }

    fn from_u64(n: u64) -> (r: Option<i32>) {
        i32_from_u64(n)
    }

    fn from_i64(n: i64) -> (r: Option<i32>) {
        i32_from_i64(n)
    }
}

/// The `i64` that equals `i`, if there is one.
pub open spec fn fit_i64(i: int) -> Option<i64> {
    if i64::MIN <= i <= i64::MAX {
        Some(i as i64)
    } else {
        None
    }
}

/// `<i64 as num_traits::FromPrimitive>::from_u64`, which gives `n` as an
/// `i64` where `i64` can represent it and nothing otherwise.
#[verifier::external_body]
fn i64_from_u64(n: u64) -> (r: Option<i64>)
    ensures
        r == fit_i64(n as int),
{
    <i64 as num_traits::FromPrimitive>::from_u64(n)
}

/// `<i64 as num_traits::FromPrimitive>::from_i64`, which gives `n` as an
/// `i64` where `i64` can represent it and nothing otherwise.
#[verifier::external_body]
fn i64_from_i64(n: i64) -> (r: Option<i64>)
    ensures
        r == fit_i64(n as int),
{
    <i64 as num_traits::FromPrimitive>::from_i64(n)
}

impl Integer for i64 {
    open spec fn of(i: int) -> Option<i64> {
        fit_i64(i)
    }

    fn from_u64(n: u64) -> (r: Option<i64>) {
        i64_from_u64(n)
    }

    fn from_i64(n: i64) -> (r: Option<i64>) {
        i64_from_i64(n)
    }
}

/// The `u8` that equals `i`, if there is one.
pub open spec fn fit_u8(i: int) -> Option<u8> {
    if u8::MIN <= i <= u8::MAX {
        Some(i as u8)
    } else {
        None
    }
}

/// `<u8 as num_traits::FromPrimitive>::from_u64`, which gives `n` as a
/// `u8` where `u8` can represent it and nothing otherwise.
#[verifier::external_body]
fn u8_from_u64(n: u64) -> (r: Option<u8>)
    ensures
        r == fit_u8(n as int),
{
    <u8 as num_traits::FromPrimitive>::from_u64(n)
}

/// `<u8 as num_traits::FromPrimitive>::from_i64`, which gives `n` as a
/// `u8` where `u8` can represent it and nothing otherwise.
#[verifier::external_body]
fn u8_from_i64(n: i64) -> (r: Option<u8>)
    ensures
        r == fit_u8(n as int),
{
    <u8 as num_traits::FromPrimitive>::from_i64(n)
}

impl Integer for u8 {
    open spec fn of(i: int) -> Option<u8> {
        fit_u8(i)
    }

    fn from_u64(n: u64) -> (r: Option<u8>) {
        u8_from_u64(n)
    }

    fn from_i64(n: i64) -> (r: Option<u8>) {
        u8_from_i64(n)
    }
}

/// The `u16` that equals `i`, if there is one.
pub open spec fn fit_u16(i: int) -> Option<u16> {
    if u16::MIN <= i <= u16::MAX {
        Some(i as u16)
    } else {
        None
    }
}

/// `<u16 as num_traits::FromPrimitive>::from_u64`, which gives `n` as a
/// `u16` where `u16` can represent it and nothing otherwise.
#[verifier::external_body]
fn u16_from_u64(n: u64) -> (r: Option<u16>)
    ensures
        r == fit_u16(n as int),
{
    <u16 as num_traits::FromPrimitive>::from_u64(n)
}

/// `<u16 as num_traits::FromPrimitive>::from_i64`, which gives `n` as a
/// `u16` where `u16` can represent it and nothing otherwise.
#[verifier::external_body]
fn u16_from_i64(n: i64) -> (r: Option<u16>)
    ensures
        r == fit_u16(n as int),
{
    <u16 as num_traits::FromPrimitive>::from_i64(n)
}

impl Integer for u16 {
    open spec fn of(i: int) -> Option<u16> {
        fit_u16(i)
    }

    fn from_u64(n: u64) -> (r: Option<u16>) {
        u16_from_u64(n)
    }

    fn from_i64(n: i64) -> (r: Option<u16>) {
        u16_from_i64(n)
    }
}

/// The `u32` that equals `i`, if there is one.
pub open spec fn fit_u32(i: int) -> Option<u32> {
    if u32::MIN <= i <= u32::MAX {
        Some(i as u32)
    } else {
        None
    }
}

/// `<u32 as num_traits::FromPrimitive>::from_u64`, which gives `n` as a
/// `u32` where `u32` can represent it and nothing otherwise.
#[verifier::external_body]
fn u32_from_u64(n: u64) -> (r: Option<u32>)
    ensures
        r == fit_u32(n as int),
{
    <u32 as num_traits::FromPrimitive>::from_u64(n)
}

/// `<u32 as num_traits::FromPrimitive>::from_i64`, which gives `n` as a
/// `u32` where `u32` can represent it and nothing otherwise.
#[verifier::external_body]
fn u32_from_i64(n: i64) -> (r: Option<u32>)
    ensures
        r == fit_u32(n as int),
{
    <u32 as num_traits::FromPrimitive>::from_i64(n)
}

impl Integer for u32 {
    open spec fn of(i: int) -> Option<u32> {
        fit_u32(i)
    }

    fn from_u64(n: u64) -> (r: Option<u32>) {
        u32_from_u64(n)
    }

    fn from_i64(n: i64) -> (r: Option<u32>) {
        u32_from_i64(n)
    }
}

/// The `u64` that equals `i`, if there is one.
pub open spec fn fit_u64(i: int) -> Option<u64> {
    if u64::MIN <= i <= u64::MAX {
        Some(i as u64)
    } else {
        None
    }
}

/// `<u64 as num_traits::FromPrimitive>::from_u64`, which gives `n` as a
/// `u64` where `u64` can represent it and nothing otherwise.
#[verifier::external_body]
fn u64_from_u64(n: u64) -> (r: Option<u64>)
    ensures
        r == fit_u64(n as int),
{
    <u64 as num_traits::FromPrimitive>::from_u64(n)
}

/// `<u64 as num_traits::FromPrimitive>::from_i64`, which gives `n` as a
/// `u64` where `u64` can represent it and nothing otherwise.
#[verifier::external_body]
fn u64_from_i64(n: i64) -> (r: Option<u64>)
    ensures
        r == fit_u64(n as int),
{
    <u64 as num_traits::FromPrimitive>::from_i64(n)
}

impl Integer for u64 {
    open spec fn of(i: int) -> Option<u64> {
        fit_u64(i)
    }

    fn from_u64(n: u64) -> (r: Option<u64>) {
        u64_from_u64(n)
    }

    fn from_i64(n: i64) -> (r: Option<u64>) {
        u64_from_i64(n)
    }
}

/// The `usize` that equals `i`, if there is one.
pub open spec fn fit_usize(i: int) -> Option<usize> {
    if usize::MIN <= i <= usize::MAX {
        Some(i as usize)
    } else {
        None
    }
}

/// `<usize as num_traits::FromPrimitive>::from_u64`, which gives `n` as a
/// `usize` where `usize` can represent it and nothing otherwise.
#[verifier::external_body]
fn usize_from_u64(n: u64) -> (r: Option<usize>)
    ensures
        r == fit_usize(n as int),
{
    <usize as num_traits::FromPrimitive>::from_u64(n)
}

/// `<usize as num_traits::FromPrimitive>::from_i64`, which gives `n` as a
/// `usize` where `usize` can represent it and nothing otherwise.
#[verifier::external_body]
fn usize_from_i64(n: i64) -> (r: Option<usize>)
    ensures
        r == fit_usize(n as int),
{
    <usize as num_traits::FromPrimitive>::from_i64(n)
}

impl Integer for usize {
    open spec fn of(i: int) -> Option<usize> {
        fit_usize(i)
    }

    fn from_u64(n: u64) -> (r: Option<usize>) {
        usize_from_u64(n)
    }

    fn from_i64(n: i64) -> (r: Option<usize>) {
        usize_from_i64(n)
    }
}

} // verus!
