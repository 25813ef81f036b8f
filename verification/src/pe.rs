//! The resource locator: trusted declarations over pelite's PE parsing
//! and resource walks, names for the bytes each walk finds, and the
//! verified error mapping of the locate stage.

use vstd::prelude::*;

use crate::exelook::LookupError;

verus! {

/// Resource type id of icon images in a PE resource directory.
pub const RT_ICON: u32 = 3;

/// Resource type id of icon groups in a PE resource directory.
pub const RT_GROUP_ICON: u32 = 14;

#[verifier::external_type_specification]
#[verifier::external_body]
#[verifier::reject_recursive_types(T32)]
#[verifier::reject_recursive_types(T64)]
pub struct ExWrap<T32, T64>(pelite::Wrap<T32, T64>);

#[verifier::external_type_specification]
#[verifier::external_body]
pub struct ExPeFile32<'a>(pelite::pe32::PeFile<'a>);

#[verifier::external_type_specification]
#[verifier::external_body]
pub struct ExPeFile64<'a>(pelite::pe64::PeFile<'a>);

#[verifier::external_type_specification]
#[verifier::external_body]
pub struct ExPeError(pelite::Error);

#[verifier::external_type_specification]
#[verifier::external_body]
pub struct ExResources<'a>(pelite::resources::Resources<'a>);


#[verifier::external_type_specification]
#[verifier::external_body]
pub struct ExFindError(pelite::resources::FindError);

/// Relies on pelite::PeFile::from_bytes: validates the DOS and NT headers,
/// trying the image as PE32+ first and retrying as PE32 when the optional
/// header magic says so.
#[verifier::external_body]
fn pe_from_bytes<'a>(bytes: &'a [u8]) -> Result<pelite::PeFile<'a>, pelite::Error> {
    pelite::PeFile::from_bytes(bytes)
}

/// Whether opening the resource tree of this parsed image succeeds. The
/// open reads only offsets and bytes the image value holds, so its outcome
/// is a function of that value alone.
pub uninterp spec fn pe_has_resources(pe: pelite::PeFile) -> bool;

/// Whether this parsed image's resource data-directory pointer is null:
/// the one failure of the open that means a valid PE simply carries no
/// resources, as opposed to a corrupt structure.
pub uninterp spec fn pe_resources_null(pe: pelite::PeFile) -> bool;

/// Whether this pelite error is its null-address case.
pub uninterp spec fn err_is_null(e: pelite::Error) -> bool;

/// Relies on pelite's PeFile::resources: opens the resource filesystem of
/// the image; the error is pelite's Null exactly when the image's resource
/// data-directory pointer is null, and every other failure marks a corrupt
/// structure.
#[verifier::external_body]
fn pe_resources<'a>(pe: &pelite::PeFile<'a>) -> (r: Result<
    pelite::resources::Resources<'a>,
    pelite::Error,
>)
    ensures
        r is Ok <==> pe_has_resources(*pe),
        r matches Err(e) ==> (err_is_null(e) <==> pe_resources_null(*pe)),
{
    pe.resources()
}

/// Relies on pelite::Error's variants: picks out the Null case, which
/// marks an image without a resource directory.
#[verifier::external_body]
fn pe_error_is_null(e: &pelite::Error) -> (r: bool)
    ensures
        r == err_is_null(*e),
{
    matches!(e, pelite::Error::Null)
}

/// The data bytes of the first resource of the given type: what the walk
/// root → type directory → first subdirectory → first data entry → bytes
/// finds in the resources, or nothing when any step of it is missing or
/// out of bounds. The whole walk reads only the resource section through
/// offsets held in the resources value, so its outcome is a function of
/// that value and the type id alone.
pub uninterp spec fn first_resource_data(res: pelite::resources::Resources, type_id: u32) -> Option<
    Seq<u8>,
>;

/// The data bytes of the resource with the given type and id: what the
/// walk root → type directory → id subdirectory → first data entry →
/// bytes finds, or nothing when any step of it is missing or out of
/// bounds; a function of the resources value and the two ids alone.
pub uninterp spec fn resource_data(
    res: pelite::resources::Resources,
    type_id: u32,
    id: u32,
) -> Option<Seq<u8>>;

/// Relies on the pelite walk Resources::root, Directory::get_dir with the
/// numeric type id, Directory::first_dir, Directory::first_data and
/// DataEntry::bytes: every step checks bounds and returns a find error
/// instead of panicking, and every offset it reads is part of the
/// resources value, so equal values give equal outcomes.
#[verifier::external_body]
fn first_resource_walk<'a>(res: &pelite::resources::Resources<'a>, type_id: u32) -> (r: Result<
    &'a [u8],
    pelite::resources::FindError,
>)
    ensures
        r is Ok <==> first_resource_data(*res, type_id) is Some,
        r matches Ok(b) ==> b@ == first_resource_data(*res, type_id)->Some_0,
{
    Ok(
        res.root()?.get_dir(pelite::resources::Name::Id(type_id))?.first_dir()?.first_data()?
            .bytes()?,
    )
}

/// Relies on pelite's Resources::find_resource, handed the numeric type
/// and resource ids: it walks root → type directory → id subdirectory →
/// first data entry → bytes, checking bounds at every step, and reads
/// only through the resources value, so equal values give equal outcomes.
#[verifier::external_body]
fn resource_walk<'a>(res: &pelite::resources::Resources<'a>, type_id: u32, id: u32) -> (r: Result<
    &'a [u8],
    pelite::resources::FindError,
>)
    ensures
        r is Ok <==> resource_data(*res, type_id, id) is Some,
        r matches Ok(b) ==> b@ == resource_data(*res, type_id, id)->Some_0,
{
    res.find_resource(
        &[pelite::resources::Name::Id(type_id), pelite::resources::Name::Id(id)],
    )
}

/// Opens the resource tree of a parsed image. A valid PE whose resource
/// data-directory pointer is null simply carries no icon, so exactly that
/// failure is the no-icon error; every other failure of the open is a
/// format error.
pub fn open_resources<'a>(pe: &pelite::PeFile<'a>) -> (r: Result<
    pelite::resources::Resources<'a>,
    LookupError,
>)
    ensures
        r is Ok <==> pe_has_resources(*pe),
        r matches Err(e) ==> (e == LookupError::NoIconFound <==> pe_resources_null(*pe)),
        r matches Err(e) ==> e == LookupError::NoIconFound || e == LookupError::FormatError,
{
    match pe_resources(pe) {
        Ok(res) => Ok(res),
        Err(e) => if pe_error_is_null(&e) {
            Err(LookupError::NoIconFound)
        } else {
            Err(LookupError::FormatError)
        },
    }
}

/// Parses the bytes as a PE file and opens its resource tree: a malformed
/// header is a format error, and the opened tree comes with the null
/// discrimination of `open_resources`.
pub fn get_resources<'a>(bytes: &'a [u8]) -> (r: Result<pelite::resources::Resources<'a>, LookupError>)
    ensures
        r matches Err(e) ==> e == LookupError::NoIconFound || e == LookupError::FormatError,
{
    let pe = match pe_from_bytes(bytes) {
        Ok(pe) => pe,
        Err(_) => {
            return Err(LookupError::FormatError);
        },
    };
    open_resources(&pe)
}

/// Walks to the raw bytes of the group-icon resource: the group-icon
/// type directory, its first resource-id subdirectory, that one's first
/// language entry, and the data it points at. The result is exactly what
/// the walk finds; a missing entry at any level means the file has no
/// icon.
pub fn group_icon_bytes<'a>(res: &pelite::resources::Resources<'a>) -> (r: Result<&'a [u8], LookupError>)
    ensures
        r is Ok <==> first_resource_data(*res, RT_GROUP_ICON) is Some,
        r matches Ok(b) ==> b@ == first_resource_data(*res, RT_GROUP_ICON)->Some_0,
        r matches Err(e) ==> e == LookupError::NoIconFound,
{
    match first_resource_walk(res, RT_GROUP_ICON) {
        Ok(b) => Ok(b),
        Err(_) => Err(LookupError::NoIconFound),
    }
}

/// Walks to the raw bytes of one icon image by its id: the icon-image
/// type directory, the subdirectory with the requested id, its first
/// language entry, and the data it points at. The result is exactly what
/// the walk finds; a missing entry means the requested id is absent.
pub fn icon_image<'a>(res: &pelite::resources::Resources<'a>, id: u16) -> (r: Result<
    &'a [u8],
    LookupError,
>)
    ensures
        r is Ok <==> resource_data(*res, RT_ICON, id as u32) is Some,
        r matches Ok(b) ==> b@ == resource_data(*res, RT_ICON, id as u32)->Some_0,
        r matches Err(e) ==> e == LookupError::NoIconFound,
{
    match resource_walk(res, RT_ICON, id as u32) {
        Ok(b) => Ok(b),
        Err(_) => Err(LookupError::NoIconFound),
    }
}

} // verus!
