//! The admin routes: who may use them, what requests ask for, and what is
//! answered.

use vstd::prelude::*;
use vstd::string::*;
use vstd::utf8::*;

use crate::http;
use crate::http::Status;
use crate::ids;
use crate::ids::{id_string, parse_id};
use crate::ip;
use crate::ip::{from_db_bytes, same_family, IpAddr};
use crate::ip_text;
use crate::ip_text::{ip_string, parse_ip};
use crate::model;
use crate::model::{BanType, BannedFileHash, BannedIpRange, BannedUserAgent, Upload};
use crate::text;
use crate::text::without_prefix;
use crate::timestamp::Timestamp;
use crate::upload_log;
use crate::util;
use crate::util::{format_ts, hex_encode, lower_hex_decode, parse_rfc3339};

verus! {

// ---------------------------------------------------------------- access

/// Whether two byte strings are the same, in a time that does not depend on
/// where they differ.
pub fn constant_time_eq(a: &[u8], b: &[u8]) -> (r: bool)
    ensures
        r == (a@ == b@),
{
    if a.len() != b.len() {
        return false;
    }
    let n: usize = a.len();
    let mut acc: u8 = 0;
    assert(a@.take(0) =~= b@.take(0));
    for i in 0..n
        invariant
            n == a@.len(),
            n == b@.len(),
            acc == 0 <==> a@.take(i as int) == b@.take(i as int),
    {
        let x: u8 = a[i];
        let y: u8 = b[i];
        let next: u8 = acc | (x ^ y);
        assert(next == 0 <==> (acc == 0 && x == y)) by (bit_vector)
            requires
                next == acc | (x ^ y),
        ;
        proof {
            let p = a@.take(i + 1);
            let q = b@.take(i + 1);
            assert(p =~= a@.take(i as int).push(x));
            assert(q =~= b@.take(i as int).push(y));
            if p == q {
                assert(p.drop_last() =~= a@.take(i as int));
                assert(q.drop_last() =~= b@.take(i as int));
                assert(p.last() == x && q.last() == y);
            }
        }
        acc = next;
    }
    assert(a@.take(n as int) =~= a@);
    assert(b@.take(n as int) =~= b@);
    acc == 0
}

/// A refusal or a failure: its status and what is said of it.
#[derive(Debug)]
pub struct AdminError {
    pub status: Status,
    pub message: &'static str,
}

/// What a refusal says.
pub open spec fn error_view(e: Option<AdminError>) -> Option<(Status, Seq<char>)> {
    match e {
        Some(e) => Some((e.status, e.message@)),
        None => None,
    }
}

/// Why a request may not use the admin routes, if it may not. Without a
/// configured token the routes do not exist; a request without a bearer token
/// is not authorized; one with another token is forbidden.
pub open spec fn access_refusal(configured: Option<Seq<char>>, header: Option<Seq<char>>) -> Option<
    (Status, Seq<char>),
> {
    match configured {
        None => Some((Status::NotFound, "Not found"@)),
        Some(token) => match header {
            Some(h) => if "Bearer "@.is_prefix_of(h) {
                if h == "Bearer "@ + token {
                    None
                } else {
                    Some((Status::Forbidden, "Invalid admin token"@))
                }
            } else {
                Some((Status::Unauthorized, "Missing or malformed Authorization header"@))
            },
            None => Some((Status::Unauthorized, "Missing or malformed Authorization header"@)),
        },
    }
}

/// Decides whether a request may use the admin routes, by the configured
/// token and the request's authorization header.
pub fn authorize(configured: Option<&str>, header: Option<&str>) -> (r: Option<AdminError>)
    ensures
        error_view(r) == access_refusal(
            text::opt_str_view(configured),
            text::opt_str_view(header),
        ),
{
    let token = match configured {
        Some(t) => t,
        None => {
            return Some(AdminError { status: Status::NotFound, message: "Not found" });
        },
    };
    let given = match header {
        Some(h) => without_prefix(h, "Bearer "),
        None => None,
    };
    match given {
        Some(g) => {
            let ghost h = header->Some_0@;
            proof {
                encode_utf8_decode_utf8(g@);
                encode_utf8_decode_utf8(token@);
                assert(("Bearer "@ + token@).skip("Bearer "@.len() as int) =~= token@);
                assert(h =~= "Bearer "@ + g@);
            }
            if constant_time_eq(g.as_str().as_bytes(), token.as_bytes()) {
                None
            } else {
                Some(AdminError { status: Status::Forbidden, message: "Invalid admin token" })
            }
        },
        None => Some(
            AdminError {
                status: Status::Unauthorized,
                message: "Missing or malformed Authorization header",
            },
        ),
    }
}

/// A request is let in exactly where a token is configured and the header
/// is that token as a bearer token.
pub proof fn lemma_only_the_token_is_let_in(configured: Option<Seq<char>>, header: Option<Seq<char>>)
    ensures
        access_refusal(configured, header) is None <==> configured is Some && header == Some(
            "Bearer "@ + configured->Some_0,
        ),
{
    if let Some(token) = configured {
        let h = "Bearer "@ + token;
        assert("Bearer "@ =~= h.subrange(0, "Bearer "@.len() as int));
    }
}

// ---------------------------------------------------------------- answers

/// How a change to the ban lists is answered.
#[derive(Debug)]
pub struct ChangeAnswer {
    pub status: Status,
    /// What is said of a failure.
    pub message: Option<&'static str>,
    /// Whether the cached list is to be forgotten.
    pub invalidate: bool,
}

/// What came of a change.
#[derive(Debug, Clone, Copy, PartialEq, Eq, Structural)]
pub enum Change {
    Done,
    /// There was nothing to change.
    Nothing,
    Failed,
}

/// The answer to an addition: 201, or 500 where it failed.
pub fn respond_created(change: Change) -> (r: ChangeAnswer)
    ensures
        r.status == (if change == Change::Failed {
            Status::InternalServerError
        } else {
            Status::Created
        }),
        text::opt_str_view(r.message) == (if change == Change::Failed {
            Some(http::internal_message())
        } else {
            None
        }),
        r.invalidate == (r.status == Status::Created),
{
    match change {
        Change::Failed => ChangeAnswer {
            status: Status::InternalServerError,
            message: Some("Something went wrong."),
            invalidate: false,
        },
        _ => ChangeAnswer { status: Status::Created, message: None, invalidate: true },
    }
}

/// The answer to a removal: 204, 404 where there was nothing to remove, or
/// 500 where it failed.
pub fn respond_removed(change: Change) -> (r: ChangeAnswer)
    ensures
        r.status == (match change {
            Change::Done => Status::NoContent,
            Change::Nothing => Status::NotFound,
            Change::Failed => Status::InternalServerError,
        }),
        text::opt_str_view(r.message) == (match change {
            Change::Done => None,
            Change::Nothing => Some("Not found"@),
            Change::Failed => Some(http::internal_message()),
        }),
        r.invalidate == (change == Change::Done),
{
    match change {
        Change::Done => ChangeAnswer { status: Status::NoContent, message: None, invalidate: true },
        Change::Nothing => ChangeAnswer {
            status: Status::NotFound,
            message: Some("Not found"),
            invalidate: false,
        },
        Change::Failed => ChangeAnswer {
            status: Status::InternalServerError,
            message: Some("Something went wrong."),
            invalidate: false,
        },
    }
}

/// The failure of a query.
pub fn internal_err() -> (r: AdminError)
    ensures
        r.status == Status::InternalServerError,
        r.message@ == http::internal_message(),
{
    AdminError { status: Status::InternalServerError, message: "Something went wrong." }
}

// ---------------------------------------------------------------- requests

/// How many of the busiest uploaders are shown.
pub const TOP_UPLOADERS_LIMIT: i64 = 10;

/// How many hours back the counts for an address go.
pub const IP_STATS_HOURS: i64 = 168;

/// How many media types are shown for an address.
pub const TOP_MIMES_LIMIT: i64 = 5;

/// The part of a list that is asked for: at most 1000 entries, 100 where
/// nothing is said, from a place that is not negative.
pub open spec fn page_of(limit: Option<i64>, offset: Option<i64>) -> (i64, i64) {
    let wanted = match limit {
        Some(n) => n,
        None => 100,
    };
    let from = match offset {
        Some(n) => n,
        None => 0,
    };
    (
        if wanted < 1 {
            1
        } else if wanted > 1000 {
            1000
        } else {
            wanted
        },
        if from < 0 {
            0
        } else {
            from
        },
    )
}

/// The part of a list that is asked for.
pub fn choose_page(limit: Option<i64>, offset: Option<i64>) -> (r: (i64, i64))
    ensures
        r == page_of(limit, offset),
        1 <= r.0 <= 1000,
        0 <= r.1,
{
    let wanted: i64 = match limit {
        Some(n) => n,
        None => 100,
    };
    let from: i64 = match offset {
        Some(n) => n,
        None => 0,
    };
    let count: i64 = if wanted < 1 {
        1
    } else if wanted > 1000 {
        1000
    } else {
        wanted
    };
    let start: i64 = if from < 0 {
        0
    } else {
        from
    };
    (count, start)
}

fn bad_request(message: &'static str) -> (r: AdminError)
    ensures
        r.status == Status::BadRequest,
        r.message@ == message@,
{
    AdminError { status: Status::BadRequest, message }
}

/// The refusal says that the request is bad, and why.
pub open spec fn is_bad(e: AdminError, message: Seq<char>) -> bool {
    e.status == Status::BadRequest && e.message@ == message
}

/// The address that a request names.
pub fn read_ip(s: &str) -> (r: Result<IpAddr, AdminError>)
    ensures
        (match r {
            Ok(ip) => ip_text::ip_value(s@) == Some(ip),
            Err(e) => ip_text::ip_value(s@) is None && is_bad(e, "Invalid ip"@),
        }),
{
    match parse_ip(s) {
        Some(ip) => Ok(ip),
        None => Err(bad_request("Invalid ip")),
    }
}

/// The address that a listing is narrowed to, if any.
pub fn read_ip_filter(s: Option<&str>) -> (r: Result<Option<IpAddr>, AdminError>)
    ensures
        (match r {
            Ok(None) => s is None,
            Ok(Some(ip)) => s is Some && ip_text::ip_value(s->Some_0@) == Some(ip),
            Err(e) => s is Some && ip_text::ip_value(s->Some_0@) is None && is_bad(
                e,
                "Invalid ip"@,
            ),
        }),
{
    match s {
        Some(t) => match read_ip(t) {
            Ok(ip) => Ok(Some(ip)),
            Err(e) => Err(e),
        },
        None => Ok(None),
    }
}

/// The upload that a request names.
pub fn read_id(s: &str) -> (r: Result<u128, AdminError>)
    ensures
        (match r {
            Ok(id) => ids::id_value(s@) == Some(id),
            Err(e) => ids::id_value(s@) is None && is_bad(e, "Invalid id"@),
        }),
{
    match parse_id(s) {
        Some(id) => Ok(id),
        None => Err(bad_request("Invalid id")),
    }
}

/// A request to ban a range of addresses.
#[derive(Debug)]
pub struct BannedIpRangeCreate {
    pub start_ip: String,
    pub end_ip: String,
    pub reason: Option<String>,
    pub expires_timestamp: Option<String>,
    pub blacklist_id: Option<i32>,
    pub type_: u32,
}

/// A range of addresses to ban.
#[derive(Debug)]
pub struct NewIpBan {
    pub start: IpAddr,
    pub end: IpAddr,
    pub expires: Option<Timestamp>,
    pub type_: BanType,
}

/// The ban type that a request names; 0 and 1 both stand for the lesser one.
pub open spec fn requested_type(code: u32) -> Option<BanType> {
    if code == 0 || code == 1 {
        Some(BanType::ReadOnly)
    } else if code == 2 {
        Some(BanType::Full)
    } else {
        None
    }
}

/// What is wrong with the ends, the expiry and the type of a request to ban,
/// in the order of the checks; none where nothing is.
pub open spec fn ban_fault(
    start: Option<IpAddr>,
    end: Option<IpAddr>,
    expires: Option<Option<Timestamp>>,
    code: u32,
) -> Option<Seq<char>> {
    if start is None {
        Some("Invalid start_ip"@)
    } else if end is None {
        Some("Invalid end_ip"@)
    } else if (start->Some_0 is V4) != (end->Some_0 is V4) {
        Some("start_ip and end_ip must be the same IP version"@)
    } else if expires == Some(None::<Timestamp>) {
        Some("Invalid expires_timestamp"@)
    } else if requested_type(code) is None {
        Some("Invalid type (expected 1 or 2)"@)
    } else {
        None
    }
}

/// Makes a ban of the parts of a request, as far as they could be read.
pub fn check_ip_ban(
    start: Option<IpAddr>,
    end: Option<IpAddr>,
    expires: Option<Option<Timestamp>>,
    code: u32,
) -> (r: Result<NewIpBan, AdminError>)
    ensures
        (match r {
            Ok(ban) => {
                &&& ban_fault(start, end, expires, code) is None
                &&& Some(ban.start) == start
                &&& Some(ban.end) == end
                &&& ban.expires == (match expires {
                    Some(e) => e,
                    None => None,
                })
                &&& Some(ban.type_) == requested_type(code)
            },
            Err(e) => ban_fault(start, end, expires, code) matches Some(message) && is_bad(
                e,
                message,
            ),
        }),
{
    let first = match start {
        Some(ip) => ip,
        None => {
            return Err(bad_request("Invalid start_ip"));
        },
    };
    let last = match end {
        Some(ip) => ip,
        None => {
            return Err(bad_request("Invalid end_ip"));
        },
    };
    if !same_family(first, last) {
        return Err(bad_request("start_ip and end_ip must be the same IP version"));
    }
    let until = match expires {
        Some(Some(ts)) => Some(ts),
        Some(None) => {
            return Err(bad_request("Invalid expires_timestamp"));
        },
        None => None,
    };
    let type_ = match code {
        0 => BanType::ReadOnly,
        1 => BanType::ReadOnly,
        2 => BanType::Full,
        _ => {
            return Err(bad_request("Invalid type (expected 1 or 2)"));
        },
    };
    Ok(NewIpBan { start: first, end: last, expires: until, type_ })
}

/// The reading of an optional expiry.
pub open spec fn expiry_reading(s: Option<Seq<char>>) -> Option<Option<Timestamp>> {
    match s {
        Some(t) => Some(upload_log::time_value(t)),
        None => None,
    }
}

/// Reads a request to ban a range of addresses.
pub fn read_ip_ban(body: &BannedIpRangeCreate) -> (r: Result<NewIpBan, AdminError>)
    ensures
        ({
            let start = ip_text::ip_value(body.start_ip@);
            let end = ip_text::ip_value(body.end_ip@);
            let expires = expiry_reading(text::opt_view(body.expires_timestamp));
            match r {
                Ok(ban) => {
                    &&& ban_fault(start, end, expires, body.type_) is None
                    &&& Some(ban.start) == start
                    &&& Some(ban.end) == end
                    &&& ban.expires == (match expires {
                        Some(e) => e,
                        None => None,
                    })
                    &&& Some(ban.type_) == requested_type(body.type_)
                },
                Err(e) => ban_fault(start, end, expires, body.type_) matches Some(message)
                    && is_bad(e, message),
            }
        }),
{
    let expires = match &body.expires_timestamp {
        Some(s) => Some(parse_rfc3339(s.as_str())),
        None => None,
    };
    check_ip_ban(
        parse_ip(body.start_ip.as_str()),
        parse_ip(body.end_ip.as_str()),
        expires,
        body.type_,
    )
}

/// The hash that a request to lift a ban names.
pub fn read_hash(s: &str) -> (r: Result<Vec<u8>, AdminError>)
    ensures
        (match r {
            Ok(hash) => util::lower_hex(s@) && hash@ == util::hex_bytes(s@),
            Err(e) => !util::lower_hex(s@) && is_bad(e, "Invalid hash (expected lowercase hex)"@),
        }),
{
    match lower_hex_decode(s) {
        Some(hash) => Ok(hash),
        None => Err(bad_request("Invalid hash (expected lowercase hex)")),
    }
}

/// The hash that a request to ban a file names: 32 bytes.
pub fn read_new_hash(s: &str) -> (r: Result<Vec<u8>, AdminError>)
    ensures
        (match r {
            Ok(hash) => util::lower_hex(s@) && hash@ == util::hex_bytes(s@) && hash@.len() == 32,
            Err(e) => if util::lower_hex(s@) {
                util::hex_bytes(s@).len() != 32 && is_bad(
                    e,
                    "Invalid hash length (expected 32-byte BLAKE3)"@,
                )
            } else {
                is_bad(e, "Invalid hash (expected lowercase hex)"@)
            },
        }),
{
    match read_hash(s) {
        Ok(hash) => if hash.len() != 32 {
            Err(bad_request("Invalid hash length (expected 32-byte BLAKE3)"))
        } else {
            Ok(hash)
        },
        Err(e) => Err(e),
    }
}

/// An extension or a media type as it is kept on its ban list.
pub fn list_form(s: &str) -> (r: String)
    ensures
        r@ == text::unicode_lowercase(s@),
{
    s.to_lowercase()
}

// ---------------------------------------------------------------- records

/// The address stored in so many bytes, as text; none where they are no
/// address.
pub open spec fn stored_ip_text(b: Seq<u8>) -> Option<Seq<char>> {
    if b.len() == 16 {
        Some(ip_text::ip_text(ip::from_db_value(crate::bytes::be_value(b))))
    } else {
        None
    }
}

/// The address stored in some bytes, as text.
pub fn stored_ip_string(b: &[u8]) -> (r: Option<String>)
    ensures
        text::opt_view(r) == stored_ip_text(b@),
{
    match from_db_bytes(b) {
        Some(ip) => Some(ip_string(ip)),
        None => None,
    }
}

/// An upload as it is shown, without its image score.
#[derive(Debug)]
pub struct UploadDto {
    pub id: String,
    pub upload_timestamp: String,
    pub expiry_timestamp: String,
    pub deleted: bool,
    pub original_name: String,
    pub slug: String,
    pub file_size: i64,
    pub hash: Option<String>,
    pub uploader_ip: Option<String>,
    pub content_type: Option<String>,
    pub user_agent: Option<String>,
}

/// An upload as it is shown.
pub fn upload_dto(u: Upload) -> (r: UploadDto)
    ensures
        r.id@ == ids::id_text(u.id),
        r.upload_timestamp@ == util::ts_text(u.upload_timestamp),
        r.expiry_timestamp@ == util::ts_text(u.expiry_timestamp),
        r.deleted == u.deleted_timestamp is Some,
        r.original_name == u.original_name,
        r.slug == u.slug,
        r.file_size == u.file_size,
        text::opt_view(r.hash) == (match u.hash {
            Some(h) => Some(util::hex_text(h@)),
            None => None,
        }),
        text::opt_view(r.uploader_ip) == (match u.uploader_ip {
            Some(b) => stored_ip_text(b@),
            None => None,
        }),
        r.content_type == u.content_type,
        r.user_agent == u.user_agent,
{
    let hash = match &u.hash {
        Some(h) => Some(hex_encode(h.as_slice())),
        None => None,
    };
    let uploader_ip = match &u.uploader_ip {
        Some(b) => stored_ip_string(b.as_slice()),
        None => None,
    };
    UploadDto {
        id: id_string(u.id),
        upload_timestamp: format_ts(u.upload_timestamp),
        expiry_timestamp: format_ts(u.expiry_timestamp),
        deleted: u.deleted_timestamp.is_some(),
        original_name: u.original_name,
        slug: u.slug,
        file_size: u.file_size,
        hash,
        uploader_ip,
        content_type: u.content_type,
        user_agent: u.user_agent,
    }
}

/// The address stored in some bytes, as text; empty where they are none.
pub fn stored_ip_or_empty(b: &[u8]) -> (r: String)
    ensures
        r@ == util::or_empty(stored_ip_text(b@)),
{
    util::text_or_empty(stored_ip_string(b))
}

/// A range of banned addresses as it is shown.
#[derive(Debug)]
pub struct BannedIpRangeDto {
    pub id: i64,
    pub start_ip: String,
    pub end_ip: String,
    pub reason: Option<String>,
    pub banned_timestamp: String,
    pub expires_timestamp: Option<String>,
    pub blacklist_id: Option<i32>,
    pub type_: u32,
}

/// A range of banned addresses as it is shown.
pub fn banned_ip_dto(b: BannedIpRange) -> (r: BannedIpRangeDto)
    ensures
        r.id == b.id,
        r.start_ip@ == util::or_empty(stored_ip_text(b.start_ip@)),
        r.end_ip@ == util::or_empty(stored_ip_text(b.end_ip@)),
        r.reason == b.reason,
        r.banned_timestamp@ == util::ts_text(b.banned_timestamp),
        text::opt_view(r.expires_timestamp) == (match b.expires_timestamp {
            Some(ts) => Some(util::ts_text(ts)),
            None => None,
        }),
        r.blacklist_id == b.blacklist_id,
        r.type_ == model::ban_code(b.type_),
{
    let expires_timestamp = match b.expires_timestamp {
        Some(ts) => Some(format_ts(ts)),
        None => None,
    };
    BannedIpRangeDto {
        id: b.id,
        start_ip: stored_ip_or_empty(b.start_ip.as_slice()),
        end_ip: stored_ip_or_empty(b.end_ip.as_slice()),
        reason: b.reason,
        banned_timestamp: format_ts(b.banned_timestamp),
        expires_timestamp,
        blacklist_id: b.blacklist_id,
        type_: b.type_.code(),
    }
}

/// A banned hash or user agent as it is shown.
#[derive(Debug)]
pub struct ReasonedDto {
    pub key: String,
    pub reason: Option<String>,
}

/// A banned hash as it is shown.
pub fn banned_hash_dto(b: BannedFileHash) -> (r: ReasonedDto)
    ensures
        r.key@ == util::hex_text(b.hash@),
        r.reason == b.reason,
{
    ReasonedDto { key: hex_encode(b.hash.as_slice()), reason: b.reason }
}

/// A banned user agent as it is shown.
pub fn banned_user_agent_dto(b: BannedUserAgent) -> (r: ReasonedDto)
    ensures
        r.key == b.pattern,
        r.reason == b.reason,
{
    ReasonedDto { key: b.pattern, reason: b.reason }
}

// ---------------------------------------------------------------- laws

/// Why a request is kept out: without a configured token the routes do not
/// exist, whatever the header; without a bearer token it is not authorized;
/// with any other token than the configured one it is forbidden.
pub proof fn lemma_why_a_request_is_kept_out(
    token: Seq<char>,
    given: Seq<char>,
    header: Option<Seq<char>>,
)
    ensures
        access_refusal(None, header) == Some((Status::NotFound, "Not found"@)),
        header is None || !"Bearer "@.is_prefix_of(header->Some_0) ==> access_refusal(
            Some(token),
            header,
        ) == Some((Status::Unauthorized, "Missing or malformed Authorization header"@)),
        given != token ==> access_refusal(Some(token), Some("Bearer "@ + given)) == Some(
            (Status::Forbidden, "Invalid admin token"@),
        ),
        access_refusal(Some(token), Some("Bearer "@ + token)) is None,
{
    let h = "Bearer "@ + given;
    assert("Bearer "@ =~= h.subrange(0, "Bearer "@.len() as int));
    lemma_only_the_token_is_let_in(Some(token), Some("Bearer "@ + token));
    if h == "Bearer "@ + token {
        assert(h.skip("Bearer "@.len() as int) =~= given);
        assert(h.skip("Bearer "@.len() as int) =~= token);
    }
}

/// A part of a list has between 1 and 1000 entries and begins at 0 or later:
/// as many as asked for and from where it is asked for within these bounds,
/// 100 from the beginning where nothing is said; the two do not affect each
/// other.
pub proof fn lemma_part_of_a_list(n: i64, from: i64, limit: Option<i64>, offset: Option<i64>)
    ensures
        1 <= n <= 1000 ==> page_of(Some(n), offset).0 == n,
        n < 1 ==> page_of(Some(n), offset).0 == 1,
        n > 1000 ==> page_of(Some(n), offset).0 == 1000,
        page_of(None, offset).0 == 100,
        from >= 0 ==> page_of(limit, Some(from)).1 == from,
        from < 0 ==> page_of(limit, Some(from)).1 == 0,
        page_of(limit, None).1 == 0,
{
}

/// Only 0, 1 and 2 name a ban type: the first two the lesser one.
pub proof fn lemma_requested_types(code: u32)
    ensures
        requested_type(0) == Some(BanType::ReadOnly),
        requested_type(1) == Some(BanType::ReadOnly),
        requested_type(2) == Some(BanType::Full),
        code > 2 ==> requested_type(code) is None,
{
}

/// A request to ban is in order exactly where both ends are addresses of one
/// family, its expiry, if any, is a time, and its type is one.
pub proof fn lemma_bans_in_order(
    start: Option<IpAddr>,
    end: Option<IpAddr>,
    expires: Option<Option<Timestamp>>,
    code: u32,
)
    ensures
        ban_fault(start, end, expires, code) is None <==> {
            &&& start is Some
            &&& end is Some
            &&& start->Some_0 is V4 <==> end->Some_0 is V4
            &&& expires is Some ==> expires->Some_0 is Some
            &&& code <= 2
        },
{
}

/// What is wrong with a request to ban is said of the first part that is.
pub proof fn lemma_first_fault_is_told(
    start: IpAddr,
    end: IpAddr,
    other: Option<IpAddr>,
    expires: Option<Option<Timestamp>>,
    code: u32,
)
    ensures
        ban_fault(None, other, expires, code) == Some("Invalid start_ip"@),
        ban_fault(Some(start), None, expires, code) == Some("Invalid end_ip"@),
        start is V4 && end is V6 || start is V6 && end is V4 ==> ban_fault(
            Some(start),
            Some(end),
            expires,
            code,
        ) == Some("start_ip and end_ip must be the same IP version"@),
        start is V4 && end is V4 || start is V6 && end is V6 ==> ban_fault(
            Some(start),
            Some(end),
            Some(None),
            code,
        ) == Some("Invalid expires_timestamp"@),
        (start is V4 && end is V4 || start is V6 && end is V6) && code > 2 && (expires is None
            || expires->Some_0 is Some) ==> ban_fault(Some(start), Some(end), expires, code)
            == Some("Invalid type (expected 1 or 2)"@),
{
}

/// An expiry is read where one is given, and only then.
pub proof fn lemma_expiry_readings(s: Seq<char>)
    ensures
        expiry_reading(None) is None,
        expiry_reading(Some(s)) == Some(upload_log::time_value(s)),
{
}

/// The address that was stored is the one that is shown, also as text; bytes
/// of another length are no address.
pub proof fn lemma_stored_address_is_shown(ip: IpAddr, b: Seq<u8>)
    requires
        ip matches IpAddr::V6(v) ==> !ip::is_mapped(v as nat),
    ensures
        stored_ip_text(ip::db_bytes(ip)) == Some(ip_text::ip_text(ip)),
        b.len() != 16 ==> stored_ip_text(b) is None,
        b.len() == 16 ==> stored_ip_text(b) is Some,
{
    ip::lemma_db_round_trip(ip);
}

/// What is said of a bad request has that status and those words.
pub proof fn lemma_bad_requests(e: AdminError, message: Seq<char>)
    ensures
        is_bad(e, message) <==> e.status == Status::BadRequest && e.message@ == message,
        error_view(Some(e)) == Some((e.status, e.message@)),
        error_view(None) is None,
        TOP_UPLOADERS_LIMIT == 10,
        IP_STATS_HOURS == 7 * 24,
        TOP_MIMES_LIMIT == 5,
{
}

} // verus!
