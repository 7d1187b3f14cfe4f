//! What this library takes from `std` on trust.
use vstd::prelude::*;
use vstd::string::StringSliceAdditionalSpecFns;
use vstd::utf8::valid_utf8;

verus! {

/// The error of `core::str::from_utf8`. Nothing is read from it.
#[verifier::external_type_specification]
#[verifier::external_body]
pub struct ExUtf8Error(core::str::Utf8Error);

/// `core::str::from_utf8` checks a slice and hands it back as text. Claimed
/// here is what its documentation says: it returns the text over the very
/// bytes it was given where they are well-formed UTF-8, and an error where
/// they are not. `valid_utf8` is vstd's statement of well-formedness.
pub assume_specification[ core::str::from_utf8 ](v: &[u8]) -> (text: Result<
    &str,
    core::str::Utf8Error,
>)
    ensures
        valid_utf8(v@) ==> text is Ok && text->Ok_0.spec_bytes() == v@,
        !valid_utf8(v@) ==> text is Err,
;

/// `core::str::from_utf8_mut` checks a slice and hands it back as text
/// that can be written to. Claimed here is what its documentation says: it
/// returns the text over the very bytes it was given where they are
/// well-formed UTF-8, and an error where they are not; and, the text being
/// the slice itself, what the text holds in the end is what the slice holds.
pub assume_specification[ core::str::from_utf8_mut ](v: &mut [u8]) -> (text: Result<
    &mut str,
    core::str::Utf8Error,
>)
    ensures
        valid_utf8(old(v)@) ==> text is Ok && text->Ok_0.spec_bytes() == old(v)@ && final(v)@
            == final(text->Ok_0).spec_bytes(),
        !valid_utf8(old(v)@) ==> text is Err && final(v)@ == old(v)@,
;

/// `str`'s `Hash::hash` feeds a text to a hasher. Nothing is claimed of
/// the state that the hasher is left in.
pub assume_specification<H: core::hash::Hasher>[ <str as core::hash::Hash>::hash::<H> ](
    text: &str,
    state: &mut H,
);

/// The error of `core::fmt::Write`. It holds nothing.
#[verifier::external_type_specification]
#[verifier::external_body]
pub struct ExFmtError(core::fmt::Error);

/// `core::fmt::Error::default` makes the one value of `core::fmt::Error`.
pub assume_specification[ <core::fmt::Error as core::default::Default>::default ]() -> (e:
    core::fmt::Error);

/// The sink that `core::fmt` renders into. Nothing is read from it.
#[verifier::external_type_specification]
#[verifier::external_body]
pub struct ExFormatter<'a>(core::fmt::Formatter<'a>);

/// `str`'s `Display::fmt` renders a text as it is. Nothing is claimed of
/// what reaches the formatter, nor of whether the formatter takes it.
pub assume_specification[ <str as core::fmt::Display>::fmt ](
    text: &str,
    f: &mut core::fmt::Formatter<'_>,
) -> (r: Result<(), core::fmt::Error>);

/// `str`'s `Debug::fmt` renders a text in quotes, with escapes. Nothing is
/// claimed of what reaches the formatter, nor of whether the formatter
/// takes it.
pub assume_specification[ <str as core::fmt::Debug>::fmt ](
    text: &str,
    f: &mut core::fmt::Formatter<'_>,
) -> (r: Result<(), core::fmt::Error>);

} // verus!
