//! The records of the service.

use vstd::prelude::*;
use vstd::string::*;

use crate::ip::IpAddr;
use crate::text;
use crate::timestamp::Timestamp;

verus! {

/// How far a ban goes.
#[derive(Debug, Clone, Copy, PartialEq, Eq, Structural)]
pub enum BanType {
    ReadOnly,
    Full,
}

/// The number under which a ban type is stored.
pub open spec fn ban_code(ban: BanType) -> u32 {
    match ban {
        BanType::ReadOnly => 1,
        BanType::Full => 2,
    }
}

/// The name of a ban type.
pub open spec fn ban_name(ban: BanType) -> Seq<char> {
    match ban {
        BanType::ReadOnly => "ReadOnly"@,
        BanType::Full => "Full"@,
    }
}

impl BanType {
    /// The number under which the ban type is stored.
    pub fn code(self) -> (r: u32)
        ensures
            r == ban_code(self),
    {
        match self {
            BanType::ReadOnly => 1,
            BanType::Full => 2,
        }
    }

    /// The name of the ban type.
    pub fn name(self) -> (r: &'static str)
        ensures
            r@ == ban_name(self),
    {
        match self {
            BanType::ReadOnly => "ReadOnly",
            BanType::Full => "Full",
        }
    }

    /// The ban type that is stored under a number.
    pub fn from_code(code: u32) -> (r: Option<BanType>)
        ensures
            forall|ban: BanType| ban_code(ban) == code <==> r == Some(ban),
    {
        match code {
            1 => {
                assert(ban_code(BanType::ReadOnly) == 1);
                Some(BanType::ReadOnly)
            },
            2 => {
                assert(ban_code(BanType::Full) == 2);
                Some(BanType::Full)
            },
            _ => None,
        }
    }
}

/// A stored upload, without its image score.
#[derive(Debug)]
pub struct Upload {
    pub id: u128,
    pub upload_timestamp: Timestamp,
    pub expiry_timestamp: Timestamp,
    pub deleted_timestamp: Option<Timestamp>,
    pub original_name: String,
    pub slug: String,
    pub file_size: i64,
    pub hash: Option<Vec<u8>>,
    pub uploader_ip: Option<Vec<u8>>,
    pub content_type: Option<String>,
    pub user_agent: Option<String>,
}

/// An upload that is about to be recorded.
#[derive(Debug)]
pub struct NewUpload {
    pub id: u128,
    pub slug: String,
    pub original_name: String,
    pub upload_timestamp: Timestamp,
    pub expiry_timestamp: Timestamp,
    pub file_size: i64,
    pub uploader_ip: Option<IpAddr>,
    pub content_type: Option<String>,
    pub user_agent: Option<String>,
}

/// The values of an upload that is about to be recorded.
pub struct NewUploadView {
    pub id: u128,
    pub slug: Seq<char>,
    pub original_name: Seq<char>,
    pub upload_timestamp: Timestamp,
    pub expiry_timestamp: Timestamp,
    pub file_size: int,
    pub uploader_ip: Option<IpAddr>,
    pub content_type: Option<Seq<char>>,
    pub user_agent: Option<Seq<char>>,
}

impl View for NewUpload {
    type V = NewUploadView;

    open spec fn view(&self) -> NewUploadView {
        NewUploadView {
            id: self.id,
            slug: self.slug@,
            original_name: self.original_name@,
            upload_timestamp: self.upload_timestamp,
            expiry_timestamp: self.expiry_timestamp,
            file_size: self.file_size as int,
            uploader_ip: self.uploader_ip,
            content_type: text::opt_view(self.content_type),
            user_agent: text::opt_view(self.user_agent),
        }
    }
}

/// A range of banned addresses.
#[derive(Debug)]
pub struct BannedIpRange {
    pub id: i64,
    pub start_ip: Vec<u8>,
    pub end_ip: Vec<u8>,
    pub reason: Option<String>,
    pub banned_timestamp: Timestamp,
    pub expires_timestamp: Option<Timestamp>,
    pub blacklist_id: Option<i32>,
    pub type_: BanType,
}

/// A source of banned addresses.
#[derive(Debug)]
pub struct Blacklist {
    pub id: i32,
    pub url: String,
    pub type_: BanType,
    pub last_update: Option<Timestamp>,
    pub update_interval_seconds: u64,
}

/// A banned file.
#[derive(Debug)]
pub struct BannedFileHash {
    pub hash: Vec<u8>,
    pub reason: Option<String>,
}

/// A banned client.
#[derive(Debug)]
pub struct BannedUserAgent {
    pub pattern: String,
    pub reason: Option<String>,
}

/// An upload and the newest upload with the same hash.
#[derive(Debug, Clone, Copy, PartialEq, Eq, Structural)]
pub struct DedupPair {
    pub dup_id: u128,
    pub canonical_id: u128,
}

/// The two ban types have numbers and names of their own.
pub proof fn lemma_ban_types()
    ensures
        ban_code(BanType::ReadOnly) == 1,
        ban_code(BanType::Full) == 2,
        ban_name(BanType::ReadOnly) == "ReadOnly"@,
        ban_name(BanType::Full) == "Full"@,
{
}

/// The values of an upload that is about to be recorded are those it has.
pub proof fn lemma_new_upload_values(u: NewUpload)
    ensures
        u@.id == u.id,
        u@.slug == u.slug@,
        u@.original_name == u.original_name@,
        u@.upload_timestamp == u.upload_timestamp,
        u@.expiry_timestamp == u.expiry_timestamp,
        u@.file_size == u.file_size,
        u@.uploader_ip == u.uploader_ip,
        u.content_type matches Some(t) ==> u@.content_type == Some(t@),
        u.content_type is None ==> u@.content_type is None,
        u.user_agent matches Some(t) ==> u@.user_agent == Some(t@),
        u.user_agent is None ==> u@.user_agent is None,
{
}

} // verus!
