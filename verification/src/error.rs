//! Error taxonomy: exit statuses, fixed diagnostic messages, and the small
//! builders that compose a message from its parts. Every fatal condition is
//! modelled as a value handed back to the caller; the process boundary that
//! prints and terminates lives outside the library.

use vstd::prelude::*;

verus! {

/// The exit statuses of the program, with 0 reserved for success.
#[derive(Clone, Copy, PartialEq, Eq, Structural, Debug)]
pub enum ExitCode {
    FileError,
    _ArgumentError,
    ConfigError,
    MountError,
    NonRoot,
    OOMError,
    ParseError,
    UnmountError,
    SectorSizeError,
    UnknownError,
}

impl ExitCode {
    /// The numeric status for each error kind.
    pub open spec fn spec_code(self) -> i32 {
        match self {
            ExitCode::FileError => 1,
            ExitCode::_ArgumentError => 2,
            ExitCode::ConfigError => 3,
            ExitCode::MountError => 4,
            ExitCode::NonRoot => 5,
            ExitCode::OOMError => 6,
            ExitCode::ParseError => 7,
            ExitCode::UnmountError => 8,
            ExitCode::SectorSizeError => 9,
            ExitCode::UnknownError => 10,
        }
    }

    /// The numeric status handed to the operating system on exit.
    pub fn code(self) -> (r: i32)
        ensures
            r == self.spec_code(),
    {
        match self {
            ExitCode::FileError => 1,
            ExitCode::_ArgumentError => 2,
            ExitCode::ConfigError => 3,
            ExitCode::MountError => 4,
            ExitCode::NonRoot => 5,
            ExitCode::OOMError => 6,
            ExitCode::ParseError => 7,
            ExitCode::UnmountError => 8,
            ExitCode::SectorSizeError => 9,
            ExitCode::UnknownError => 10,
        }
    }
}

/// Which input file a file-level error concerns.
#[derive(Clone, Copy, PartialEq, Eq, Structural, Debug)]
pub enum FileType {
    MapFile,
    ImageFile,
}

impl FileType {
    pub open spec fn spec_name(self) -> Seq<char> {
        match self {
            FileType::MapFile => "map file"@,
            FileType::ImageFile => "image file"@,
        }
    }

    /// The human-readable name of the file kind.
    pub fn to_string(&self) -> (r: &'static str)
        ensures
            r@ == self.spec_name(),
    {
        match self {
            FileType::MapFile => "map file",
            FileType::ImageFile => "image file",
        }
    }
}

/// Which numeric field of a map line failed to convert.
#[derive(Clone, Copy, PartialEq, Eq, Structural, Debug)]
pub enum Token {
    Pos,
    Size,
    CurrentPos,
}

impl Token {
    pub open spec fn spec_name(self) -> Seq<char> {
        match self {
            Token::Pos => "position"@,
            Token::Size => "size"@,
            Token::CurrentPos => "current position"@,
        }
    }

    /// The human-readable name of the field.
    pub fn to_string(&self) -> (r: String)
        ensures
            r@ == self.spec_name(),
    {
        match self {
            Token::Pos => "position".to_owned(),
            Token::Size => "size".to_owned(),
            Token::CurrentPos => "current position".to_owned(),
        }
    }
}

pub const SET_CONFIG_ERROR: &'static str = "Unable to open or set configuration";

pub const READ_CONFIG_ERROR: &'static str = "Unable to read configuration";

pub const OOM_ERROR: &'static str = "Out of memory error!";

pub const MOUNT_ERROR: &'static str = "Unable to mount image";

pub const NO_DEVICE_UNMOUNT_ERROR: &'static str = "Unmount error: Unable to find device";

pub const UNMOUNT_ERROR: &'static str = "Unable to unmount device";

pub const FILE_NOT_FOUND_ERROR: &'static str = "Unable to find";

pub const SECTOR_SIZE_ERROR: &'static str = "Sector size is not a multiple of 512";

pub const WSL_ERROR: &'static str = "ddr-mount does not support running under WSL";

pub const PARSE_ERROR: &'static str = "Unable to parse ddrescue map file";

pub const EMPTY_MAP_ERROR: &'static str = "Map file is empty";

/// Message naming a file that could not be found.
pub open spec fn spec_file_not_found(filetype: FileType) -> Seq<char> {
    "Unable to find "@ + filetype.spec_name()
}

/// Builds the not-found message for the given file kind.
pub fn file_not_found(filetype: FileType) -> (r: String)
    ensures
        r@ == spec_file_not_found(filetype),
{
    let mut s = "Unable to find ".to_owned();
    s.append(filetype.to_string());
    s
}

/// Message for a numeric field that could not be converted.
pub open spec fn spec_convert_error(token: Token) -> Seq<char> {
    "Could not convert "@ + token.spec_name() + " to decimal"@
}

/// Builds the conversion-failure message for the given field.
pub fn convert_error_string(token: Token) -> (r: String)
    ensures
        r@ == spec_convert_error(token),
{
    let mut s = "Could not convert ".to_owned();
    s.append(token.to_string().as_str());
    s.append(" to decimal");
    s
}

/// Message naming the device an unmount request could not find.
pub open spec fn spec_no_unmount_device(device: Seq<char>) -> Seq<char> {
    "Unmount error: Unable to find device "@ + device
}

/// Builds the lookup-failure message for an unmount by name.
pub fn no_unmount_device_message(device: &str) -> (r: String)
    ensures
        r@ == spec_no_unmount_device(device@),
{
    let mut s = "Unmount error: Unable to find device ".to_owned();
    s.append(device);
    s
}

/// A mount failure discovered after a loop device was already created: the
/// named device must be detached again before the failure is reported.
pub struct MountCleanup {
    pub device: String,
}

/// Records that mounting failed mid-way: the returned value names the loop
/// device to detach; the failure itself carries `ExitCode::MountError`.
pub fn mount_error_clean(device: &str) -> (r: MountCleanup)
    ensures
        r.device@ == device@,
{
    MountCleanup { device: device.to_owned() }
}

} // verus!
