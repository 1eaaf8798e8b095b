//! The artifacts of a bundle and the index that names them.

use vstd::prelude::*;
use vstd::string::*;
use crate::image::{
    clear_firmware_flag, flag_cleared, flag_fits, is_flag, parse_image, parsed_image, read_version,
    version_of, Image, ImageError,
};
use crate::linear::{by_address, flattened, linearize};

verus! {

/// The index entry of a bundle: the stored name of every artifact, and the
/// versions read from the firmware and the bootloader.
#[derive(Debug, Clone)]
pub struct Index {
    pub firmware: String,
    pub firmware_update: String,
    pub firmware_update_bin: String,
    pub bootloader: String,
    pub bootloader_update_bin: String,
    pub config: String,
    pub firmware_version: String,
    pub bootloader_version: String,
}

/// Some `.firmware_flag` section of `img` cannot be cleared in a file of `n` bytes.
pub open spec fn flag_error(img: Image, n: int) -> bool {
    exists|i: int|
        0 <= i < img.sections@.len() && is_flag(#[trigger] img.sections@[i]) && !flag_fits(img.sections@[i], n)
}

/// Makes the update image of a firmware file `raw`, whose parts are `img`:
/// its version, and a copy of the file with the firmware flag cleared.
pub fn gen_firmware_update_elf(raw: &Vec<u8>, img: &Image) -> (r: Result<(String, Vec<u8>), ImageError>)
    ensures
        match r {
            Ok((v, bytes)) => {
                &&& version_of(*img) == Ok::<Seq<char>, ImageError>(v@)
                &&& !flag_error(*img, raw@.len() as int)
                &&& bytes@ == flag_cleared(raw@, img.sections@, img.sections@.len() as int)
            },
            Err(e) => version_of(*img) == Err::<Seq<char>, ImageError>(e) || (version_of(*img) is Ok
                && flag_error(*img, raw@.len() as int) && e == ImageError::BadFlagSection),
        },
{
    let version = match read_version(img) {
        Ok(v) => v,
        Err(e) => return Err(e),
    };
    match clear_firmware_flag(raw, img) {
        Ok(bytes) => Ok((version, bytes)),
        Err(e) => Err(e),
    }
}

/// Flattens an image for raw flashing: its version, and its loadable segments
/// laid out in one zero-padded buffer.
pub fn convert_to_bin(img: &Image) -> (r: Result<(String, Vec<u8>), ImageError>)
    ensures
        match r {
            Ok((v, bytes)) => version_of(*img) == Ok::<Seq<char>, ImageError>(v@) && flattened(by_address(img.segments@)) == Ok::<Seq<u8>, ImageError>(bytes@),
            Err(e) => version_of(*img) == Err::<Seq<char>, ImageError>(e) || (version_of(*img) is Ok
                && flattened(by_address(img.segments@)) == Err::<Seq<u8>, ImageError>(e)),
        },
{
    let version = match read_version(img) {
        Ok(v) => v,
        Err(e) => return Err(e),
    };
    match linearize(&img.segments) {
        Ok(bytes) => Ok((version, bytes)),
        Err(e) => Err(e),
    }
}

/// `<firmware>-<version>-update.elf`: the name of the update image.
pub fn update_elf_name(firmware: &str, version: &str) -> (r: String)
    ensures
        r@ == firmware@ + "-"@ + version@ + "-update.elf"@,
{
    String::from_str(firmware).concat("-").concat(version).concat("-update.elf")
}

/// `<firmware>-<version>-update.grplfw`: the name of the raw update binary.
pub fn update_bin_name(firmware: &str, version: &str) -> (r: String)
    ensures
        r@ == firmware@ + "-"@ + version@ + "-update.grplfw"@,
{
    String::from_str(firmware).concat("-").concat(version).concat("-update.grplfw")
}

/// `<bootloader>-<version>.grplbt`: the name of the raw bootloader binary.
pub fn bootloader_bin_name(bootloader: &str, version: &str) -> (r: String)
    ensures
        r@ == bootloader@ + "-"@ + version@ + ".grplbt"@,
{
    String::from_str(bootloader).concat("-").concat(version).concat(".grplbt")
}

/// The index of a bundle built from the files named `firmware`, `bootloader`
/// and `config`, whose images carry the given versions.
pub fn make_index(
    firmware: &str,
    bootloader: &str,
    config: &str,
    firmware_version: &str,
    bootloader_version: &str,
) -> (r: Index)
    ensures
        r.firmware@ == firmware@,
        r.firmware_update@ == firmware@ + "-"@ + firmware_version@ + "-update.elf"@,
        r.firmware_update_bin@ == firmware@ + "-"@ + firmware_version@ + "-update.grplfw"@,
        r.bootloader@ == bootloader@,
        r.bootloader_update_bin@ == bootloader@ + "-"@ + bootloader_version@ + ".grplbt"@,
        r.config@ == config@,
        r.firmware_version@ == firmware_version@,
        r.bootloader_version@ == bootloader_version@,
{
    Index {
        firmware: String::from_str(firmware),
        firmware_update: update_elf_name(firmware, firmware_version),
        firmware_update_bin: update_bin_name(firmware, firmware_version),
        bootloader: String::from_str(bootloader),
        bootloader_update_bin: bootloader_bin_name(bootloader, bootloader_version),
        config: String::from_str(config),
        firmware_version: String::from_str(firmware_version),
        bootloader_version: String::from_str(bootloader_version),
    }
}

/// The generated artifacts of a bundle, and its index.
#[derive(Debug, Clone)]
pub struct Artifacts {
    pub index: Index,
    /// The firmware image with its flag cleared.
    pub update_image: Vec<u8>,
    /// The update image flattened for raw flashing.
    pub update_bin: Vec<u8>,
    /// The bootloader flattened for raw flashing.
    pub bootloader_bin: Vec<u8>,
}

/// Why a bundle cannot be built, and from which input.
#[derive(Debug, Clone, Copy, PartialEq, Eq)]
pub enum BuildError {
    Firmware(ImageError),
    UpdateImage(ImageError),
    Bootloader(ImageError),
}

/// What building a bundle from the firmware file `fw_raw` and the bootloader
/// file `bl_raw` yields: the update image's version, the update image, the
/// version and flattened bytes of the update image, and the version and
/// flattened bytes of the bootloader; or the first stage that fails.
pub open spec fn build_outcome(fw_raw: Seq<u8>, bl_raw: Seq<u8>) -> Result<
    (Seq<char>, Seq<u8>, Seq<char>, Seq<u8>, Seq<char>, Seq<u8>),
    BuildError,
> {
    match parsed_image(fw_raw) {
        None => Err(BuildError::Firmware(ImageError::MalformedImage)),
        Some(fw) => match version_of(fw) {
            Err(e) => Err(BuildError::Firmware(e)),
            Ok(elf_version) => if flag_error(fw, fw_raw.len() as int) {
                Err(BuildError::Firmware(ImageError::BadFlagSection))
            } else {
                let update = flag_cleared(fw_raw, fw.sections@, fw.sections@.len() as int);
                match parsed_image(update) {
                    None => Err(BuildError::UpdateImage(ImageError::MalformedImage)),
                    Some(u) => match version_of(u) {
                        Err(e) => Err(BuildError::UpdateImage(e)),
                        Ok(fw_version) => match flattened(by_address(u.segments@)) {
                            Err(e) => Err(BuildError::UpdateImage(e)),
                            Ok(bin) => match parsed_image(bl_raw) {
                                None => Err(BuildError::Bootloader(ImageError::MalformedImage)),
                                Some(b) => match version_of(b) {
                                    Err(e) => Err(BuildError::Bootloader(e)),
                                    Ok(bl_version) => match flattened(by_address(b.segments@)) {
                                        Err(e) => Err(BuildError::Bootloader(e)),
                                        Ok(bl_bin) => Ok((elf_version, update, fw_version, bin, bl_version, bl_bin)),
                                    },
                                },
                            },
                        },
                    },
                }
            },
        },
    }
}

/// Builds the artifacts and the index of a bundle from the firmware file
/// `firmware_raw` and the bootloader file `bootloader_raw`, stored under the
/// names `firmware`, `bootloader` and `config` with the config file.
///
/// The update image is the firmware with its flag cleared; it and the
/// bootloader are flattened, and each artifact is named after the version
/// read from the image it was made from (see `build_outcome`).
pub fn build_artifacts(
    firmware: &str,
    bootloader: &str,
    config: &str,
    firmware_raw: &Vec<u8>,
    bootloader_raw: &Vec<u8>,
) -> (r: Result<Artifacts, BuildError>)
    ensures
        match r {
            Err(e) => build_outcome(firmware_raw@, bootloader_raw@) == Err::<
                (Seq<char>, Seq<u8>, Seq<char>, Seq<u8>, Seq<char>, Seq<u8>),
                BuildError,
            >(e),
            Ok(a) => build_outcome(firmware_raw@, bootloader_raw@) matches Ok(
                (elf_version, update, fw_version, bin, bl_version, bl_bin),
            ) && {
                &&& a.update_image@ == update
                &&& a.update_bin@ == bin
                &&& a.bootloader_bin@ == bl_bin
                &&& a.index.firmware@ == firmware@
                &&& a.index.firmware_update@ == firmware@ + "-"@ + elf_version + "-update.elf"@
                &&& a.index.firmware_update_bin@ == firmware@ + "-"@ + fw_version + "-update.grplfw"@
                &&& a.index.bootloader@ == bootloader@
                &&& a.index.bootloader_update_bin@ == bootloader@ + "-"@ + bl_version + ".grplbt"@
                &&& a.index.config@ == config@
                &&& a.index.firmware_version@ == fw_version
                &&& a.index.bootloader_version@ == bl_version
            },
        },
{
    let fw_img = match parse_image(firmware_raw.as_slice()) {
        Ok(img) => img,
        Err(e) => return Err(BuildError::Firmware(e)),
    };
    let (elf_version, update_image) = match gen_firmware_update_elf(firmware_raw, &fw_img) {
        Ok(x) => x,
        Err(e) => return Err(BuildError::Firmware(e)),
    };
    let update_img = match parse_image(update_image.as_slice()) {
        Ok(img) => img,
        Err(e) => return Err(BuildError::UpdateImage(e)),
    };
    let (firmware_version, update_bin) = match convert_to_bin(&update_img) {
        Ok(x) => x,
        Err(e) => return Err(BuildError::UpdateImage(e)),
    };
    let bl_img = match parse_image(bootloader_raw.as_slice()) {
        Ok(img) => img,
        Err(e) => return Err(BuildError::Bootloader(e)),
    };
    let (bootloader_version, bootloader_bin) = match convert_to_bin(&bl_img) {
        Ok(x) => x,
        Err(e) => return Err(BuildError::Bootloader(e)),
    };
    let mut index = make_index(
        firmware,
        bootloader,
        config,
        firmware_version.as_str(),
        bootloader_version.as_str(),
    );
    index.firmware_update = update_elf_name(firmware, elf_version.as_str());
    Ok(Artifacts { index, update_image, update_bin, bootloader_bin })
}

} // verus!
