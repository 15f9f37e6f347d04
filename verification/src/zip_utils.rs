//! The archive as the search sees it: whether the chosen entry is
//! encrypted and how, and what an attempt to read it with a password gives.
//!
//! The archive is read by the `zip` crate, from bytes in memory. What that
//! crate reads out of an archive is taken to depend on the bytes of the
//! archive, the number of the entry and the password alone. Whether the
//! name of an entry stays inside the directory it is extracted to depends
//! on the machine as well, and is taken as it comes.

use crate::finder_errors::{FinderError, FinderErrorView};
use crate::text::{decimal_digits, push_decimal};
use std::io::Cursor;
use std::io::Read;
use vstd::prelude::*;
use vstd::string::*;
use zip::result::ZipError;
use zip::HasZipMetadata;
use zip::ZipArchive;

verus! {

/// `zip::ZipArchive`, an archive that is open for reading.
#[verifier::external_type_specification]
#[verifier::external_body]
#[verifier::reject_recursive_types(R)]
pub struct ExZipArchive<R>(ZipArchive<R>);

/// `std::io::Cursor`, which reads from bytes in memory.
#[verifier::external_type_specification]
#[verifier::external_body]
#[verifier::reject_recursive_types(T)]
pub struct ExCursor<T>(Cursor<T>);

/// What an AES-encrypted entry stores for the check of a password.
#[derive(Clone, Debug)]
pub struct AesInfo {
    pub aes_key_length: usize,
    pub verification_value: [u8; 2],
    pub derived_key_length: usize,
    pub salt: Vec<u8>,
}

/// `AesInfo` by the contents of its fields.
pub struct AesInfoView {
    pub aes_key_length: usize,
    pub verification_value: Seq<u8>,
    pub derived_key_length: usize,
    pub salt: Seq<u8>,
}

impl View for AesInfo {
    type V = AesInfoView;

    open spec fn view(&self) -> AesInfoView {
        AesInfoView {
            aes_key_length: self.aes_key_length,
            verification_value: self.verification_value@,
            derived_key_length: self.derived_key_length,
            salt: self.salt@,
        }
    }
}

impl AesInfo {
    /// The parameters of an entry with a key of `aes_key_length` bytes.
    /// The key to derive holds the encryption key, the authentication key
    /// of the same length, and the two bytes of the verification value.
    pub fn new(aes_key_length: usize, verification_value: [u8; 2], salt: Vec<u8>) -> (info: Self)
        requires
            2 * aes_key_length + 2 <= usize::MAX,
        ensures
            info.aes_key_length == aes_key_length,
            info.verification_value == verification_value,
            info.derived_key_length == 2 * aes_key_length + 2,
            info.salt == salt,
    {
        let derived_key_length: usize = 2 * aes_key_length + 2;
        AesInfo { aes_key_length, verification_value, derived_key_length, salt }
    }

    /// A copy of these parameters.
    pub fn duplicate(&self) -> (copy: Self)
        ensures
            copy@ == self@,
    {
        AesInfo {
            aes_key_length: self.aes_key_length,
            verification_value: self.verification_value,
            derived_key_length: self.derived_key_length,
            salt: self.salt.clone(),
        }
    }
}

/// An entry that the search can work on: how it is encrypted, and its
/// name.
pub struct ValidatedZip {
    /// The AES parameters, or `None` for the legacy encryption.
    pub aes_info: Option<AesInfo>,
    pub file_name: Option<String>,
}

/// `ValidatedZip` by the contents of its fields.
pub struct ValidatedZipView {
    pub aes_info: Option<AesInfoView>,
    pub file_name: Option<Seq<char>>,
}

impl View for ValidatedZip {
    type V = ValidatedZipView;

    open spec fn view(&self) -> ValidatedZipView {
        ValidatedZipView {
            aes_info: match self.aes_info {
                Some(info) => Some(info@),
                None => None,
            },
            file_name: match self.file_name {
                Some(name) => Some(name@),
                None => None,
            },
        }
    }
}

impl ValidatedZip {
    pub fn new(aes_info: Option<AesInfo>, file_name: Option<String>) -> (validated: Self)
        ensures
            validated.aes_info == aes_info,
            validated.file_name == file_name,
    {
        ValidatedZip { aes_info, file_name }
    }
}

/// What the archive says of the AES parameters of an entry.
pub enum AesProbe {
    /// The entry is not encrypted with AES.
    NotAes,
    /// The entry is encrypted with AES, with these parameters.
    Aes { key_length: usize, verification_value: [u8; 2], salt: Vec<u8> },
    /// The parameters could not be read.
    Failed { reason: String },
}

/// `AesProbe` by the contents of its fields.
pub enum AesEntry {
    NotAes,
    Aes { key_length: usize, verification_value: Seq<u8>, salt: Seq<u8> },
    Failed { reason: Seq<char> },
}

impl View for AesProbe {
    type V = AesEntry;

    open spec fn view(&self) -> AesEntry {
        match self {
            AesProbe::NotAes => AesEntry::NotAes,
            AesProbe::Aes { key_length, verification_value, salt } => AesEntry::Aes {
                key_length: *key_length,
                verification_value: verification_value@,
                salt: salt@,
            },
            AesProbe::Failed { reason } => AesEntry::Failed { reason: reason@ },
        }
    }
}

/// What opening an entry without a password gives.
pub enum PlainOpen {
    /// The entry can be read without a password: it is not encrypted.
    Readable { name: String },
    /// The entry asks for a password.
    PasswordRequired,
    /// There is no entry of that number.
    NotFound,
    /// Anything else.
    Other { reason: String },
}

/// `PlainOpen` by the contents of its fields.
pub enum PlainEntry {
    Readable { name: Seq<char> },
    PasswordRequired,
    NotFound,
    Other { reason: Seq<char> },
}

impl View for PlainOpen {
    type V = PlainEntry;

    open spec fn view(&self) -> PlainEntry {
        match self {
            PlainOpen::Readable { name } => PlainEntry::Readable { name: name@ },
            PlainOpen::PasswordRequired => PlainEntry::PasswordRequired,
            PlainOpen::NotFound => PlainEntry::NotFound,
            PlainOpen::Other { reason } => PlainEntry::Other { reason: reason@ },
        }
    }
}

/// What an entry is before anything is decrypted.
pub enum RawEntry {
    /// The entry is there. `aes_key_length` is the key length of its AES
    /// mode, if it has one, `compressed_size` the size that the archive
    /// declares for its data, and `named` says whether its name stays
    /// inside the directory it is extracted to.
    Found { aes_key_length: Option<usize>, compressed_size: u64, named: bool },
    /// The entry is not there, or its data cannot be found.
    Unreadable,
}

/// `RawEntry` by what of it depends on the archive alone.
pub enum RawEntryView {
    Found { aes_key_length: Option<usize>, compressed_size: u64 },
    Unreadable,
}

impl View for RawEntry {
    type V = RawEntryView;

    open spec fn view(&self) -> RawEntryView {
        match self {
            RawEntry::Found { aes_key_length, compressed_size, named } => RawEntryView::Found {
                aes_key_length: *aes_key_length,
                compressed_size: *compressed_size,
            },
            RawEntry::Unreadable => RawEntryView::Unreadable,
        }
    }
}

/// What opening an entry with a password, and reading it to its end,
/// gives.
pub enum Attempt {
    /// The password passed the archive's own check. `size` is the size
    /// that the archive declares for the entry, and `read` the number of
    /// bytes that came out, or `None` where reading failed.
    Opened { size: u64, read: Option<usize> },
    /// The archive's own check refused the password.
    InvalidPassword,
    /// Anything else.
    Failed { reason: String },
}

/// `Attempt` by the contents of its fields.
pub enum AttemptView {
    Opened { size: u64, read: Option<usize> },
    InvalidPassword,
    Failed { reason: Seq<char> },
}

impl View for Attempt {
    type V = AttemptView;

    open spec fn view(&self) -> AttemptView {
        match self {
            Attempt::Opened { size, read } => AttemptView::Opened { size: *size, read: *read },
            Attempt::InvalidPassword => AttemptView::InvalidPassword,
            Attempt::Failed { reason } => AttemptView::Failed { reason: reason@ },
        }
    }
}

/// The bytes that an open archive reads from.
pub uninterp spec fn archive_source(archive: ZipArchive<Cursor<Vec<u8>>>) -> Seq<u8>;

/// The text of the error with which `ZipArchive::new` refuses `bytes`, or
/// `None` where it accepts them as an archive.
pub uninterp spec fn archive_fault(bytes: Seq<u8>) -> Option<Seq<char>>;

/// `bytes` hold an archive that can be opened.
pub open spec fn archive_parses(bytes: Seq<u8>) -> bool {
    archive_fault(bytes) is None
}

/// What `ZipArchive::by_index_raw` gives for the entry `file_number` of
/// the archive that `bytes` hold: the key length of its AES mode and the
/// size of its data.
pub uninterp spec fn raw_entry(bytes: Seq<u8>, file_number: usize) -> RawEntryView;

/// An entry with an AES mode declares data long enough to hold what AES
/// puts around the encrypted bytes: the salt, which is half as long as the
/// key, the two bytes of the verification value, and the ten bytes of the
/// authentication code. An entry that cannot be found raw is not found by
/// the calls that decrypt either, which look for it in the same way
/// before they turn to AES.
pub open spec fn holds_aes_frame(raw: RawEntryView) -> bool {
    raw matches RawEntryView::Found { aes_key_length: Some(key_length), compressed_size }
        ==> compressed_size >= key_length / 2 + 12
}

/// What `ZipArchive::get_aes_verification_key_and_salt` gives for the
/// entry `file_number` of the archive that `bytes` hold.
pub uninterp spec fn aes_entry(bytes: Seq<u8>, file_number: usize) -> AesEntry;

/// What `ZipArchive::name_for_index` gives for the entry `file_number` of
/// the archive that `bytes` hold.
pub uninterp spec fn entry_name(bytes: Seq<u8>, file_number: usize) -> Option<Seq<char>>;

/// What `ZipArchive::by_index` gives for the entry `file_number` of the
/// archive that `bytes` hold.
pub uninterp spec fn plain_entry(bytes: Seq<u8>, file_number: usize) -> PlainEntry;

/// What `ZipArchive::by_index_decrypt` gives for the entry `file_number`
/// of the archive that `bytes` hold and the password `password`, read to
/// its end.
pub uninterp spec fn attempt(bytes: Seq<u8>, file_number: usize, password: Seq<u8>) -> AttemptView;

/// `ZipArchive::new` on a `Cursor` over `bytes`: the archive, which then
/// reads from `bytes`, or the `Display` text of the error.
#[verifier::external_body]
pub(crate) fn open_archive(bytes: Vec<u8>) -> (r: Result<ZipArchive<Cursor<Vec<u8>>>, String>)
    ensures
        match r {
            Ok(archive) => archive_fault(bytes@) is None && archive_source(archive) == bytes@,
            Err(text) => archive_fault(bytes@) == Some(text@),
        },
{
    match ZipArchive::new(Cursor::new(bytes)) {
        Ok(archive) => Ok(archive),
        Err(error) => Err(error.to_string()),
    }
}

/// `ZipArchive::by_index_raw`, and on the entry that it gives
/// `get_metadata`, `compressed_size` and `enclosed_name`: the key length
/// of the entry's AES mode, which is 16, 24 or 32, the size of its data,
/// and whether its name is enclosed. Nothing is decrypted. The archive
/// reads from the same bytes afterwards.
#[verifier::external_body]
pub(crate) fn probe_raw(
    archive: &mut ZipArchive<Cursor<Vec<u8>>>,
    file_number: usize,
) -> (r: RawEntry)
    ensures
        r@ == raw_entry(archive_source(*old(archive)), file_number),
        archive_source(*final(archive)) == archive_source(*old(archive)),
        r matches RawEntry::Found { aes_key_length: Some(key_length), compressed_size, named }
            ==> key_length == 16 || key_length == 24 || key_length == 32,
{
    match archive.by_index_raw(file_number) {
        Ok(file) => RawEntry::Found {
            aes_key_length: match file.get_metadata().aes_mode {
                Some(mode) => Some(mode.0.key_length()),
                None => None,
            },
            compressed_size: file.compressed_size(),
            named: file.enclosed_name().is_some(),
        },
        Err(_) => RawEntry::Unreadable,
    }
}

/// `ZipArchive::get_aes_verification_key_and_salt`: the key length of the
/// entry's AES mode, which is 16, 24 or 32, the two bytes of the
/// verification value, and the salt. The crate subtracts the length of
/// the AES frame from the size of the data, so the data must hold the
/// frame. The archive reads from the same bytes afterwards.
#[verifier::external_body]
pub(crate) fn probe_aes(
    archive: &mut ZipArchive<Cursor<Vec<u8>>>,
    file_number: usize,
) -> (r: AesProbe)
    requires
        holds_aes_frame(raw_entry(archive_source(*old(archive)), file_number)),
    ensures
        r@ == aes_entry(archive_source(*old(archive)), file_number),
        archive_source(*final(archive)) == archive_source(*old(archive)),
        r matches AesProbe::Aes { key_length, verification_value, salt } ==> key_length == 16
            || key_length == 24 || key_length == 32,
{
    match archive.get_aes_verification_key_and_salt(file_number) {
        Ok(None) => AesProbe::NotAes,
        Ok(Some(info)) => AesProbe::Aes {
            key_length: info.aes_mode.key_length(),
            verification_value: info.verification_value,
            salt: info.salt,
        },
        Err(error) => AesProbe::Failed { reason: format!("{error:?}") },
    }
}

/// `ZipArchive::name_for_index`: the name of the entry, if there is one
/// of that number.
#[verifier::external_body]
pub(crate) fn probe_name(
    archive: &ZipArchive<Cursor<Vec<u8>>>,
    file_number: usize,
) -> (r: Option<String>)
    ensures
        match r {
            Some(name) => entry_name(archive_source(*archive), file_number) == Some(name@),
            None => entry_name(archive_source(*archive), file_number) is None,
        },
{
    match archive.name_for_index(file_number) {
        Some(name) => Some(name.to_string()),
        None => None,
    }
}

/// `ZipArchive::by_index`: the entry opened without a password. The
/// archive reads from the same bytes afterwards.
#[verifier::external_body]
pub(crate) fn probe_plain(
    archive: &mut ZipArchive<Cursor<Vec<u8>>>,
    file_number: usize,
) -> (r: PlainOpen)
    ensures
        r@ == plain_entry(archive_source(*old(archive)), file_number),
        archive_source(*final(archive)) == archive_source(*old(archive)),
{
    match archive.by_index(file_number) {
        Ok(file) => PlainOpen::Readable { name: file.name().to_string() },
        Err(ZipError::UnsupportedArchive(ZipError::PASSWORD_REQUIRED)) => PlainOpen::PasswordRequired,
        Err(ZipError::FileNotFound) => PlainOpen::NotFound,
        Err(other) => PlainOpen::Other { reason: format!("{other:?}") },
    }
}

/// `ZipArchive::by_index_decrypt`, and on the entry that it gives `size`
/// and `read_to_end` into `buffer`. With AES the crate subtracts the
/// length of the AES frame from the size of the data, so the data must
/// hold the frame. The archive reads from the same bytes afterwards.
#[verifier::external_body]
pub(crate) fn probe_with_password(
    archive: &mut ZipArchive<Cursor<Vec<u8>>>,
    file_number: usize,
    password: &[u8],
    buffer: &mut Vec<u8>,
) -> (r: Attempt)
    requires
        holds_aes_frame(raw_entry(archive_source(*old(archive)), file_number)),
    ensures
        r@ == attempt(archive_source(*old(archive)), file_number, password@),
        archive_source(*final(archive)) == archive_source(*old(archive)),
{
    match archive.by_index_decrypt(file_number, password) {
        Ok(mut file) => Attempt::Opened { size: file.size(), read: file.read_to_end(buffer).ok() },
        Err(ZipError::InvalidPassword) => Attempt::InvalidPassword,
        Err(other) => Attempt::Failed { reason: format!("{other:?}") },
    }
}

/// Whether the data of an entry with an AES mode is long enough to hold
/// what AES puts around the encrypted bytes.
pub fn entry_holds_aes_frame(raw: &RawEntry) -> (holds: bool)
    ensures
        holds == holds_aes_frame(raw@),
{
    match raw {
        RawEntry::Found { aes_key_length, compressed_size, named } => match aes_key_length {
            Some(key_length) => {
                let half: usize = *key_length / 2;
                half <= usize::MAX - 12 && (half + 12) as u64 <= *compressed_size
            },
            None => true,
        },
        RawEntry::Unreadable => true,
    }
}

/// The message for an entry whose data cannot hold what its AES mode puts
/// around the encrypted bytes.
pub open spec fn short_entry_text(file_number: usize) -> Seq<char> {
    "the selected file in the archive is too short for its encryption (file_number:"@
        + decimal_digits(file_number as nat) + ")"@
}

/// The error for an entry whose data cannot hold its AES frame.
pub fn short_entry_error(file_number: usize) -> (error: FinderError)
    ensures
        error@ == (FinderErrorView::InvalidZip { message: short_entry_text(file_number) }),
{
    let mut message = String::from_str(
        "the selected file in the archive is too short for its encryption (file_number:",
    );
    push_decimal(&mut message, file_number);
    message.append(")");
    FinderError::invalid_zip_error(message)
}

/// The message for an entry that can be read without a password.
pub open spec fn not_encrypted_text(file_number: usize, name: Seq<char>) -> Seq<char> {
    "the selected file in the archive is not encrypted (file_number:"@ + decimal_digits(
        file_number as nat,
    ) + " file_name:"@ + name + ")"@
}

/// The message for an entry that could not be opened, for the reason that
/// `reason` gives.
pub open spec fn unexpected_text(reason: Seq<char>) -> Seq<char> {
    "unexpected error while opening archive: "@ + reason
}

/// A validation by the contents of its fields.
pub open spec fn validation_view(r: Result<ValidatedZip, FinderError>) -> Result<
    ValidatedZipView,
    FinderErrorView,
> {
    match r {
        Ok(validated) => Ok(validated@),
        Err(error) => Err(error@),
    }
}

/// What is made of an entry, given what the archive says of it: it must
/// ask for a password; then it is encrypted with AES, with the parameters
/// found, or with the legacy cipher.
pub open spec fn classified(
    file_number: usize,
    aes: AesEntry,
    file_name: Option<Seq<char>>,
    opened: PlainEntry,
) -> Result<ValidatedZipView, FinderErrorView> {
    match opened {
        PlainEntry::Readable { name } => Err(
            FinderErrorView::InvalidZip { message: not_encrypted_text(file_number, name) },
        ),
        PlainEntry::PasswordRequired => match aes {
            AesEntry::NotAes => Ok(ValidatedZipView { aes_info: None, file_name }),
            AesEntry::Aes { key_length, verification_value, salt } => Ok(
                ValidatedZipView {
                    aes_info: Some(
                        AesInfoView {
                            aes_key_length: key_length,
                            verification_value,
                            derived_key_length: (2 * key_length + 2) as usize,
                            salt,
                        },
                    ),
                    file_name,
                },
            ),
            AesEntry::Failed { reason } => Err(
                FinderErrorView::InvalidZip { message: unexpected_text(reason) },
            ),
        },
        PlainEntry::NotFound => Err(FinderErrorView::FileNotFoundInArchive { file_number }),
        PlainEntry::Other { reason } => Err(
            FinderErrorView::InvalidZip { message: unexpected_text(reason) },
        ),
    }
}

fn unexpected_error(reason: &String) -> (error: FinderError)
    ensures
        error@ == (FinderErrorView::InvalidZip { message: unexpected_text(reason@) }),
{
    let mut message = String::from_str("unexpected error while opening archive: ");
    message.append(reason.as_str());
    FinderError::invalid_zip_error(message)
}

/// Decides, from what the archive says of the entry `file_number`,
/// whether the search can work on it.
pub fn classify_entry(
    file_number: usize,
    aes: AesProbe,
    file_name: Option<String>,
    opened: PlainOpen,
) -> (r: Result<ValidatedZip, FinderError>)
    requires
        aes matches AesProbe::Aes { key_length, verification_value, salt } ==> 2 * key_length + 2
            <= usize::MAX,
    ensures
        validation_view(r) == classified(
            file_number,
            aes@,
            match file_name {
                Some(name) => Some(name@),
                None => None,
            },
            opened@,
        ),
{
    match opened {
        PlainOpen::Readable { name } => {
            let mut message = String::from_str(
                "the selected file in the archive is not encrypted (file_number:",
            );
            push_decimal(&mut message, file_number);
            message.append(" file_name:");
            message.append(name.as_str());
            message.append(")");
            Err(FinderError::invalid_zip_error(message))
        },
        PlainOpen::PasswordRequired => match aes {
            AesProbe::NotAes => Ok(ValidatedZip::new(None, file_name)),
            AesProbe::Aes { key_length, verification_value, salt } => Ok(
                ValidatedZip::new(Some(AesInfo::new(key_length, verification_value, salt)), file_name),
            ),
            AesProbe::Failed { reason } => Err(unexpected_error(&reason)),
        },
        PlainOpen::NotFound => Err(FinderError::file_not_found_error(file_number)),
        PlainOpen::Other { reason } => Err(unexpected_error(&reason)),
    }
}

/// What is made of an entry, given all that the archive says of it: an
/// entry whose data cannot hold its AES frame is refused, and any other
/// is classified.
pub open spec fn validated(
    file_number: usize,
    raw: RawEntryView,
    aes: AesEntry,
    file_name: Option<Seq<char>>,
    opened: PlainEntry,
) -> Result<ValidatedZipView, FinderErrorView> {
    if holds_aes_frame(raw) {
        classified(file_number, aes, file_name, opened)
    } else {
        Err(FinderErrorView::InvalidZip { message: short_entry_text(file_number) })
    }
}

/// Opens the archive that `archive` holds and decides whether the search
/// can work on its entry `file_number`: the entry must exist and ask for a
/// password, and with AES its data must hold the AES frame.
pub fn validate_zip(archive: Vec<u8>, file_number: usize) -> (r: Result<ValidatedZip, FinderError>)
    ensures
        archive_parses(archive@) ==> validation_view(r) == validated(
            file_number,
            raw_entry(archive@, file_number),
            aes_entry(archive@, file_number),
            entry_name(archive@, file_number),
            plain_entry(archive@, file_number),
        ),
        archive_fault(archive@) matches Some(text) ==> r matches Err(error) && error@ == (
        FinderErrorView::InvalidZip { message: text }),
        r matches Ok(validated) ==> validated.aes_info matches Some(info) ==> (info.aes_key_length
            == 16 || info.aes_key_length == 24 || info.aes_key_length == 32)
            && info.derived_key_length == 2 * info.aes_key_length + 2,
{
    let mut opened = match open_archive(archive) {
        Ok(opened) => opened,
        Err(text) => {
            return Err(FinderError::invalid_zip_error(text));
        },
    };
    let raw = probe_raw(&mut opened, file_number);
    if !entry_holds_aes_frame(&raw) {
        return Err(short_entry_error(file_number));
    }
    let aes = probe_aes(&mut opened, file_number);
    let file_name = probe_name(&opened, file_number);
    let plain = probe_plain(&mut opened, file_number);
    classify_entry(file_number, aes, file_name, plain)
}

} // verus!
