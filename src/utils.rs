use crate::error::Error;
use rand::Rng;
use sha2::Digest;
use std::hash::{Hash, Hasher};
use vstd::prelude::*;

verus! {

/// The message of a `NotFound` error for `name` of kind `kind`.
pub open spec fn not_found_message(kind: Seq<char>, name: Seq<char>) -> Seq<char> {
    kind + " not found at name "@ + name
}

/// The value held by `opt`, or a `NotFound` error naming what was missing.
pub fn not_found_if_none<T>(opt: Option<T>, kind: &str, name: &str) -> (r: Result<T, Error>)
    ensures
        r is Ok <==> opt is Some,
        r is Ok ==> r->Ok_0 == opt->Some_0,
        r is Err ==> (r->Err_0 matches Error::NotFound(m) && m@ == not_found_message(kind@, name@)),
{
    match opt {
        Some(o) => Ok(o),
        None => Err(Error::NotFound(String::from_str(kind).concat(" not found at name ").concat(name))),
    }
}

pub const MAX_PER_PAGE: usize = 10000;

pub const DEFAULT_PER_PAGE: usize = 1000;

/// A page request: the page number, from 1, and the page size.
#[derive(Debug, Clone, Copy)]
pub struct Pagination {
    pub page: Option<usize>,
    pub per_page: Option<usize>,
}

/// A path as it comes from a route, possibly with a leading `/`.
#[derive(Debug)]
pub struct StripPath(pub String);

impl StripPath {
    /// The path without its leading `/`, if it has one.
    pub fn to_path(&self) -> (r: &str)
        ensures
            r@ == (if self.0@.len() > 0 && self.0@[0] == '/' {
                self.0@.subrange(1, self.0@.len() as int)
            } else {
                self.0@
            }),
    {
        let s = self.0.as_str();
        let n = s.unicode_len();
        if n > 0 && s.get_char(0) == '/' {
            s.substring_char(1, n)
        } else {
            s
        }
    }
}

/// Fails `RequireAdmin` for a user who is not an administrator.
pub fn require_admin(is_admin: bool, username: &str) -> (r: Result<(), Error>)
    ensures
        r is Ok <==> is_admin,
        r is Err ==> (r->Err_0 matches Error::RequireAdmin(u) && u@ == username@),
{
    if !is_admin {
        Err(Error::RequireAdmin(String::from_str(username)))
    } else {
        Ok(())
    }
}

/// The page number a request asks for, counting from 1.
pub open spec fn page_of(p: Pagination) -> int {
    match p.page {
        Some(n) => if n >= 1 {
            n as int
        } else {
            1
        },
        None => 1,
    }
}

/// The page size of a request, within `1..=MAX_PER_PAGE`.
pub open spec fn bounded_per_page(p: Pagination) -> int {
    let n = match p.per_page {
        Some(n) => n as int,
        None => DEFAULT_PER_PAGE as int,
    };
    if n < 1 {
        1
    } else if n > MAX_PER_PAGE {
        MAX_PER_PAGE as int
    } else {
        n
    }
}

/// The page size and the offset of the first row of the requested page,
/// the size bounded to `1..=MAX_PER_PAGE`.
pub fn paginate(pagination: Pagination) -> (r: (usize, usize))
    requires
        (page_of(pagination) - 1) * bounded_per_page(pagination) <= usize::MAX,
    ensures
        r.0 == bounded_per_page(pagination),
        r.1 == (page_of(pagination) - 1) * bounded_per_page(pagination),
{
    let asked: usize = match pagination.per_page {
        Some(n) => n,
        None => DEFAULT_PER_PAGE,
    };
    let per_page: usize = if asked < 1 {
        1
    } else if asked > MAX_PER_PAGE {
        MAX_PER_PAGE
    } else {
        asked
    };
    let page: usize = match pagination.page {
        Some(n) => if n >= 1 {
            n
        } else {
            1
        },
        None => 1,
    };
    let offset = (page - 1) * per_page;
    (per_page, offset)
}

/// The page size and the offset of the requested page, the size taken as
/// asked (`MAX_PER_PAGE` when not given).
pub fn paginate_without_limits(pagination: Pagination) -> (r: (usize, usize))
    requires
        (page_of(pagination) - 1) * (match pagination.per_page {
            Some(n) => n as int,
            None => MAX_PER_PAGE as int,
        }) <= usize::MAX,
    ensures
        r.0 == (match pagination.per_page {
            Some(n) => n,
            None => MAX_PER_PAGE,
        }),
        r.1 == (page_of(pagination) - 1) * r.0,
{
    let per_page: usize = match pagination.per_page {
        Some(n) => n,
        None => MAX_PER_PAGE,
    };
    let page: usize = match pagination.page {
        Some(n) => if n >= 1 {
            n
        } else {
            1
        },
        None => 1,
    };
    let offset = (page - 1) * per_page;
    (per_page, offset)
}

/// The hash std's `DefaultHasher` gives a string.
pub uninterp spec fn default_hash_of(s: Seq<char>) -> u64;

/// Relies on std's `DefaultHasher::new`, `str::hash` and `Hasher::finish`:
/// every hasher made by `new` starts from the same state, so the result
/// depends on the string alone.
#[verifier::external_body]
fn default_hash(s: &str) -> (r: u64)
    ensures
        r == default_hash_of(s@),
{
    let mut hasher = std::collections::hash_map::DefaultHasher::new();
    s.hash(&mut hasher);
    hasher.finish()
}

/// The bucket in `0..=max_number` that a hash falls into.
pub fn bucket_of_hash(hash: u64, max_number: u64) -> (r: u64)
    requires
        max_number < u64::MAX,
    ensures
        r as int == hash as int % (max_number + 1),
        r <= max_number,
{
    hash % (max_number + 1)
}

/// Maps a string to a number in `0..=max_number` by its hash.
pub fn map_string_to_number(s: &str, max_number: u64) -> (r: u64)
    requires
        max_number < u64::MAX,
    ensures
        r as int == default_hash_of(s@) as int % (max_number + 1),
        r <= max_number,
{
    bucket_of_hash(default_hash(s), max_number)
}

/// The lowercase hex SHA-256 digest of a string.
pub uninterp spec fn sha256_hex_of(s: Seq<char>) -> Seq<char>;

/// Relies on sha2's `Sha256` (`new`, `update`, `finalize`), the digest
/// written as lowercase hex: 32 bytes, so 64 digits.
#[verifier::external_body]
fn sha256_hex(s: &str) -> (r: String)
    ensures
        r@ == sha256_hex_of(s@),
        r@.len() == 64,
{
    let mut hasher = sha2::Sha256::new();
    hasher.update(s);
    format!("{:x}", hasher.finalize())
}

/// The SHA-256 digest of `s`, in lowercase hex.
pub fn calculate_hash(s: &str) -> (r: String)
    ensures
        r@ == sha256_hex_of(s@),
        r@.len() == 64,
{
    sha256_hex(s)
}

/// The CRC-32 (ISO-HDLC) checksum of a string's UTF-8 bytes.
pub uninterp spec fn crc32_of(s: Seq<char>) -> u32;

/// Relies on crc's `Crc::<u32>::new(&CRC_32_ISO_HDLC).checksum` over the
/// string's bytes.
#[verifier::external_body]
fn crc32_iso_hdlc(s: &str) -> (r: u32)
    ensures
        r == crc32_of(s@),
{
    crc::Crc::<u32>::new(&crc::CRC_32_ISO_HDLC).checksum(s.as_bytes())
}

pub const LOCK_ID_FACTOR: i64 = 0x3d32ad9e;

/// The advisory lock id of a checksum: the checksum times a fixed factor.
pub fn lock_id_of_checksum(checksum: u32) -> (r: i64)
    ensures
        r == LOCK_ID_FACTOR * checksum,
{
    assert(LOCK_ID_FACTOR * checksum <= LOCK_ID_FACTOR * u32::MAX) by (nonlinear_arith)
        requires
            0 <= checksum <= u32::MAX,
    ;
    LOCK_ID_FACTOR * (checksum as i64)
}

/// The advisory lock id of a database name.
pub fn generate_lock_id(database_name: &str) -> (r: i64)
    ensures
        r == LOCK_ID_FACTOR * crc32_of(database_name@),
{
    lock_id_of_checksum(crc32_iso_hdlc(database_name))
}

/// An ASCII letter or digit.
pub open spec fn is_alphanumeric(c: char) -> bool {
    ('a' <= c <= 'z') || ('A' <= c <= 'Z') || ('0' <= c <= '9')
}

/// Relies on rand's `thread_rng` sampling `Alphanumeric`, which yields
/// letters and digits of ASCII only: `len` of them.
#[verifier::external_body]
fn random_alphanumeric(len: usize) -> (r: String)
    ensures
        r@.len() == len,
        forall|i: int| 0 <= i < len ==> is_alphanumeric(#[trigger] r@[i]),
{
    rand::thread_rng().sample_iter(&rand::distributions::Alphanumeric).take(len).map(char::from).collect()
}

/// A random string of `len` ASCII letters and digits.
pub fn rd_string(len: usize) -> (r: String)
    ensures
        r@.len() == len,
        forall|i: int| 0 <= i < len ==> is_alphanumeric(#[trigger] r@[i]),
{
    random_alphanumeric(len)
}

/// Relies on gethostname's `gethostname`: the host name, when it is valid
/// Unicode.
#[verifier::external_body]
fn machine_hostname() -> (r: Option<String>) {
    gethostname::gethostname().to_str().map(|x| x.to_string())
}

/// The host name, or a random string of five letters and digits when it is
/// not valid Unicode.
pub fn hostname() -> (r: String) {
    match machine_hostname() {
        Some(h) => h,
        None => rd_string(5),
    }
}

/// What a critical error alert is acknowledged for: its workspace when the
/// workspace mutes alerts; globally when alerts are muted globally, when the
/// workspace mutes them, or for a workspace alert on a cloud-hosted instance.
/// Returns `(acknowledge_global, acknowledge_workspace)`.
pub fn critical_alert_acknowledgement(
    mute_global: bool,
    mute_workspace: bool,
    has_workspace: bool,
    cloud_hosted: bool,
) -> (r: (bool, bool))
    ensures
        r.0 == (mute_global || mute_workspace || (has_workspace && cloud_hosted)),
        r.1 == mute_workspace,
{
    (mute_global || mute_workspace || (has_workspace && cloud_hosted), mute_workspace)
}

/// The role a process runs in.
#[derive(Debug, Clone, Copy, PartialEq, Eq, Structural)]
pub enum Mode {
    Worker,
    Agent,
    Server,
    Standalone,
    Indexer,
}

impl Mode {
    pub open spec fn name_spec(&self) -> Seq<char> {
        match self {
            Mode::Worker => "worker"@,
            Mode::Agent => "agent"@,
            Mode::Server => "server"@,
            Mode::Standalone => "standalone"@,
            Mode::Indexer => "indexer"@,
        }
    }

    /// The lowercase name of the mode.
    pub fn to_string(&self) -> (r: String)
        ensures
            r@ == self.name_spec(),
    {
        match self {
            Mode::Worker => String::from_str("worker"),
            Mode::Agent => String::from_str("agent"),
            Mode::Server => String::from_str("server"),
            Mode::Standalone => String::from_str("standalone"),
            Mode::Indexer => String::from_str("indexer"),
        }
    }
}

} // verus!
