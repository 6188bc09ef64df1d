//! The command line: what commands ask for, and the lines they print.

use vstd::prelude::*;
use vstd::string::*;

use crate::admin;
use crate::admin::stored_ip_or_empty;
use crate::ip::{same_family, IpAddr};
use crate::ip_text;
use crate::ip_text::ip_string;
use crate::model;
use crate::model::{BanType, BannedFileHash, BannedIpRange, BannedUserAgent, Blacklist};
use crate::text;
use crate::text::{debug_text, decimal_int_text, decimal_text, pad_left, pad_right};
use crate::timestamp;
use crate::timestamp::{display, Timestamp};
use crate::util;
use crate::util::{format_ts, hex_encode, lower_hex_decode, parse_rfc3339, text_or_empty};

verus! {

// ---------------------------------------------------------------- arguments

/// What is said of a number that is no ban type.
pub open spec fn type_message() -> Seq<char> {
    "type must be 1 (readonly) or 2 (full)"@
}

/// The ban type with a number.
pub fn parse_ban_type(type_: u32) -> (r: Result<BanType, &'static str>)
    ensures
        (match r {
            Ok(ban) => model::ban_code(ban) == type_,
            Err(message) => type_ != 1 && type_ != 2 && message@ == type_message(),
        }),
{
    match type_ {
        1 => Ok(BanType::ReadOnly),
        2 => Ok(BanType::Full),
        _ => Err("type must be 1 (readonly) or 2 (full)"),
    }
}

/// What is wrong with the ends, the type and the expiry of a ban, in the
/// order of the checks; none where nothing is.
pub open spec fn ban_fault(
    start: IpAddr,
    end: IpAddr,
    code: u32,
    expires: Option<Option<Timestamp>>,
) -> Option<Seq<char>> {
    if (start is V4) != (end is V4) {
        Some("start and end must be the same IP version"@)
    } else if code != 1 && code != 2 {
        Some(type_message())
    } else if expires == Some(None::<Timestamp>) {
        Some("Invalid --expires timestamp"@)
    } else {
        None
    }
}

/// Makes a ban of the parts of a command. `expires` is the reading of its
/// expiry, where one was given.
pub fn check_ip_ban(
    start: IpAddr,
    end: IpAddr,
    code: u32,
    expires: Option<Option<Timestamp>>,
) -> (r: Result<(BanType, Option<Timestamp>), &'static str>)
    ensures
        (match r {
            Ok((type_, until)) => {
                &&& ban_fault(start, end, code, expires) is None
                &&& model::ban_code(type_) == code
                &&& until == (match expires {
                    Some(e) => e,
                    None => None,
                })
            },
            Err(message) => ban_fault(start, end, code, expires) == Some(message@),
        }),
{
    if !same_family(start, end) {
        return Err("start and end must be the same IP version");
    }
    let type_ = match parse_ban_type(code) {
        Ok(t) => t,
        Err(message) => {
            return Err(message);
        },
    };
    match expires {
        Some(Some(ts)) => Ok((type_, Some(ts))),
        Some(None) => Err("Invalid --expires timestamp"),
        None => Ok((type_, None)),
    }
}

/// Reads the ban that a command asks for.
pub fn read_ip_ban(start: IpAddr, end: IpAddr, code: u32, expires: Option<&str>) -> (r: Result<
    (BanType, Option<Timestamp>),
    &'static str,
>)
    ensures
        ({
            let reading = admin::expiry_reading(text::opt_str_view(expires));
            match r {
                Ok((type_, until)) => {
                    &&& ban_fault(start, end, code, reading) is None
                    &&& model::ban_code(type_) == code
                    &&& until == (match reading {
                        Some(e) => e,
                        None => None,
                    })
                },
                Err(message) => ban_fault(start, end, code, reading) == Some(message@),
            }
        }),
{
    let reading = match expires {
        Some(s) => Some(parse_rfc3339(s)),
        None => None,
    };
    check_ip_ban(start, end, code, reading)
}

/// The hash whose ban a command lifts.
pub fn read_hash(s: &str) -> (r: Result<Vec<u8>, &'static str>)
    ensures
        (match r {
            Ok(hash) => util::lower_hex(s@) && hash@ == util::hex_bytes(s@),
            Err(message) => !util::lower_hex(s@) && message@
                == "Invalid hash (expected lowercase hex)"@,
        }),
{
    match lower_hex_decode(s) {
        Some(hash) => Ok(hash),
        None => Err("Invalid hash (expected lowercase hex)"),
    }
}

/// The hash that a command bans: 32 bytes.
pub fn read_new_hash(s: &str) -> (r: Result<Vec<u8>, &'static str>)
    ensures
        (match r {
            Ok(hash) => util::lower_hex(s@) && hash@ == util::hex_bytes(s@) && hash@.len() == 32,
            Err(message) => if util::lower_hex(s@) {
                util::hex_bytes(s@).len() != 32 && message@
                    == "Invalid hash length (expected 32-byte BLAKE3)"@
            } else {
                message@ == "Invalid hash (expected lowercase hex)"@
            },
        }),
{
    match read_hash(s) {
        Ok(hash) => if hash.len() != 32 {
            Err("Invalid hash length (expected 32-byte BLAKE3)")
        } else {
            Ok(hash)
        },
        Err(message) => Err(message),
    }
}

// ---------------------------------------------------------------- listings

/// The lines of a listing, or what is said of an empty one.
pub fn list_or_empty(lines: Vec<String>, empty: &str) -> (r: Vec<String>)
    ensures
        r.deep_view() == (if lines@.len() == 0 {
            seq![empty@]
        } else {
            lines.deep_view()
        }),
{
    if lines.len() == 0 {
        let mut out: Vec<String> = Vec::new();
        out.push(empty.to_owned());
        assert(out.deep_view() =~= seq![empty@]);
        out
    } else {
        lines
    }
}

/// A reason, or a dash.
pub open spec fn reason_text(reason: Option<Seq<char>>) -> Seq<char> {
    match reason {
        Some(r) => r,
        None => "-"@,
    }
}

fn reason_or_dash(reason: &Option<String>) -> (r: String)
    ensures
        r@ == reason_text(text::opt_view(*reason)),
{
    match reason {
        Some(t) => t.clone(),
        None => "-".to_owned(),
    }
}

/// The line for a blacklist.
pub open spec fn blacklist_line_text(b: Blacklist) -> Seq<char> {
    text::pad_start(text::decimal_int(b.id as int), 6) + "  "@ + text::pad_end(b.url@, 255)
        + "  type="@ + model::ban_name(b.type_) + "  interval="@ + text::pad_start(
        text::decimal(b.update_interval_seconds as nat),
        10,
    ) + "s  last_update="@ + (match b.last_update {
        Some(ts) => util::or_empty(timestamp::display_text(ts.nanos)),
        None => "never"@,
    })
}

/// The line for a blacklist.
pub fn blacklist_line(b: &Blacklist) -> (r: String)
    ensures
        r@ == blacklist_line_text(*b),
{
    let id = decimal_int_text(b.id as i64);
    let mut out = pad_left(id.as_str(), 6);
    out.append("  ");
    let url = pad_right(b.url.as_str(), 255);
    out.append(url.as_str());
    out.append("  type=");
    out.append(b.type_.name());
    out.append("  interval=");
    let interval = decimal_text(b.update_interval_seconds);
    let padded = pad_left(interval.as_str(), 10);
    out.append(padded.as_str());
    out.append("s  last_update=");
    let last = match b.last_update {
        Some(ts) => text_or_empty(display(ts.nanos)),
        None => "never".to_owned(),
    };
    out.append(last.as_str());
    out
}

/// The line for a range of banned addresses.
pub open spec fn ip_ban_line_text(b: BannedIpRange) -> Seq<char> {
    text::pad_start(text::decimal_int(b.id as int), 6) + "  "@ + text::pad_end(
        util::or_empty(admin::stored_ip_text(b.start_ip@)),
        15,
    ) + "-"@ + text::pad_end(util::or_empty(admin::stored_ip_text(b.end_ip@)), 15) + "  type="@
        + text::pad_end(model::ban_name(b.type_), 8) + "  reason="@ + text::pad_end(
        reason_text(text::opt_view(b.reason)),
        20,
    ) + "  expires="@ + (match b.expires_timestamp {
        Some(ts) => util::ts_text(ts),
        None => "never"@,
    })
}

/// The line for a range of banned addresses.
pub fn ip_ban_line(b: &BannedIpRange) -> (r: String)
    ensures
        r@ == ip_ban_line_text(*b),
{
    let id = decimal_int_text(b.id);
    let mut out = pad_left(id.as_str(), 6);
    out.append("  ");
    let start = stored_ip_or_empty(b.start_ip.as_slice());
    let start_padded = pad_right(start.as_str(), 15);
    out.append(start_padded.as_str());
    out.append("-");
    let end = stored_ip_or_empty(b.end_ip.as_slice());
    let end_padded = pad_right(end.as_str(), 15);
    out.append(end_padded.as_str());
    out.append("  type=");
    let name = pad_right(b.type_.name(), 8);
    out.append(name.as_str());
    out.append("  reason=");
    let reason = reason_or_dash(&b.reason);
    let reason_padded = pad_right(reason.as_str(), 20);
    out.append(reason_padded.as_str());
    out.append("  expires=");
    let expires = match b.expires_timestamp {
        Some(ts) => format_ts(ts),
        None => "never".to_owned(),
    };
    out.append(expires.as_str());
    out
}

/// The line for a banned hash.
pub fn hash_ban_line(b: &BannedFileHash) -> (r: String)
    ensures
        r@ == util::hex_text(b.hash@) + "  reason="@ + reason_text(text::opt_view(b.reason)),
{
    let mut out = hex_encode(b.hash.as_slice());
    out.append("  reason=");
    let reason = reason_or_dash(&b.reason);
    out.append(reason.as_str());
    out
}

/// The line for a banned user agent.
pub fn user_agent_ban_line(b: &BannedUserAgent) -> (r: String)
    ensures
        r@ == b.pattern@ + "  reason="@ + reason_text(text::opt_view(b.reason)),
{
    let mut out = b.pattern.clone();
    out.append("  reason=");
    let reason = reason_or_dash(&b.reason);
    out.append(reason.as_str());
    out
}

// ---------------------------------------------------------------- outcomes

/// What a command bans or lifts a ban on.
#[derive(Debug)]
pub enum Subject {
    Blacklist(i32),
    Extension(String),
    Mime(String),
    Hash(String),
    UserAgent(String),
}

/// What is said of a removal.
pub open spec fn removed_text(subject: Subject) -> Seq<char> {
    match subject {
        Subject::Blacklist(id) => "Removed entry "@ + text::decimal_int(id as int) + "."@,
        Subject::Extension(e) => "Removed ban on extension "@ + e@ + "."@,
        Subject::Mime(m) => "Removed ban on mime "@ + m@ + "."@,
        Subject::Hash(h) => "Removed ban on hash "@ + h@ + "."@,
        Subject::UserAgent(p) => "Removed ban on user agent pattern "@ + text::debug_form(p@)
            + "."@,
    }
}

/// What is said where there is nothing to remove.
pub open spec fn missing_text(subject: Subject) -> Seq<char> {
    match subject {
        Subject::Blacklist(id) => "No entry with id "@ + text::decimal_int(id as int) + "."@,
        Subject::Extension(e) => "No ban on extension "@ + e@ + "."@,
        Subject::Mime(m) => "No ban on mime "@ + m@ + "."@,
        Subject::Hash(h) => "No ban on hash "@ + h@ + "."@,
        Subject::UserAgent(p) => "No ban on user agent pattern "@ + text::debug_form(p@) + "."@,
    }
}

fn sentence(front: &str, object: &str) -> (r: String)
    ensures
        r@ == front@ + object@ + "."@,
{
    let mut out = front.to_owned();
    out.append(object);
    out.append(".");
    out
}

/// The outcome of a removal: what is printed, or the error that there was
/// nothing to remove.
pub fn removal_result(removed: bool, subject: &Subject) -> (r: Result<String, String>)
    ensures
        (match r {
            Ok(line) => removed && line@ == removed_text(*subject),
            Err(message) => !removed && message@ == missing_text(*subject),
        }),
{
    let (ok, none, object): (&str, &str, String) = match subject {
        Subject::Blacklist(id) => (
            "Removed entry ",
            "No entry with id ",
            decimal_int_text(*id as i64),
        ),
        Subject::Extension(e) => (
            "Removed ban on extension ",
            "No ban on extension ",
            e.clone(),
        ),
        Subject::Mime(m) => ("Removed ban on mime ", "No ban on mime ", m.clone()),
        Subject::Hash(h) => ("Removed ban on hash ", "No ban on hash ", h.clone()),
        Subject::UserAgent(p) => (
            "Removed ban on user agent pattern ",
            "No ban on user agent pattern ",
            debug_text(p.as_str()),
        ),
    };
    if removed {
        Ok(sentence(ok, object.as_str()))
    } else {
        Err(sentence(none, object.as_str()))
    }
}

/// The outcome of lifting the ban with a number on a range of addresses.
pub fn range_removal_result(removed: bool, id: i64) -> (r: Result<String, String>)
    ensures
        (match r {
            Ok(line) => removed && line@ == "Removed ban "@ + text::decimal_int(id as int) + "."@,
            Err(message) => !removed && message@ == "No banned IP range with id "@
                + text::decimal_int(id as int) + "."@,
        }),
{
    let number = decimal_int_text(id);
    if removed {
        Ok(sentence("Removed ban ", number.as_str()))
    } else {
        Err(sentence("No banned IP range with id ", number.as_str()))
    }
}

/// What is printed for a new entry or ban.
pub open spec fn added_text(subject: Subject) -> Seq<char> {
    match subject {
        Subject::Blacklist(id) => "Added entry with id "@ + text::decimal_int(id as int) + "."@,
        Subject::Extension(e) => "Banned extension "@ + e@ + "."@,
        Subject::Mime(m) => "Banned mime "@ + m@ + "."@,
        Subject::Hash(h) => "Banned hash "@ + h@ + "."@,
        Subject::UserAgent(p) => "Banned user agent pattern "@ + text::debug_form(p@) + "."@,
    }
}

/// What is printed for a new entry or ban.
pub fn added_line(subject: &Subject) -> (r: String)
    ensures
        r@ == added_text(*subject),
{
    match subject {
        Subject::Blacklist(id) => {
            let number = decimal_int_text(*id as i64);
            sentence("Added entry with id ", number.as_str())
        },
        Subject::Extension(e) => sentence("Banned extension ", e.as_str()),
        Subject::Mime(m) => sentence("Banned mime ", m.as_str()),
        Subject::Hash(h) => sentence("Banned hash ", h.as_str()),
        Subject::UserAgent(p) => {
            let quoted = debug_text(p.as_str());
            sentence("Banned user agent pattern ", quoted.as_str())
        },
    }
}

/// What is printed for a new ban on a range of addresses.
pub fn banned_range_line(start: IpAddr, end: IpAddr, id: i64) -> (r: String)
    ensures
        r@ == "Banned "@ + ip_text::ip_text(start) + "-"@ + ip_text::ip_text(end) + " with id "@
            + text::decimal_int(id as int) + "."@,
{
    let mut out = "Banned ".to_owned();
    let first = ip_string(start);
    out.append(first.as_str());
    out.append("-");
    let last = ip_string(end);
    out.append(last.as_str());
    out.append(" with id ");
    let number = decimal_int_text(id);
    out.append(number.as_str());
    out.append(".");
    out
}

/// What is printed for a deletion.
pub fn deleted_line(count: u64, expired: bool) -> (r: String)
    ensures
        r@ == "Deleted "@ + text::decimal(count as nat) + (if expired {
            " expired upload(s)."@
        } else {
            " upload(s)."@
        }),
{
    let mut out = "Deleted ".to_owned();
    let number = decimal_text(count);
    out.append(number.as_str());
    if expired {
        out.append(" expired upload(s).");
    } else {
        out.append(" upload(s).");
    }
    out
}

// ---------------------------------------------------------------- laws

/// A ban is in order exactly where both ends are of one family, its type is 1
/// or 2, and its expiry, if any, is a time; else the first fault is told.
pub proof fn lemma_bans_in_order(
    start: IpAddr,
    end: IpAddr,
    code: u32,
    expires: Option<Option<Timestamp>>,
)
    ensures
        ban_fault(start, end, code, expires) is None <==> {
            &&& start is V4 <==> end is V4
            &&& code == 1 || code == 2
            &&& expires is Some ==> expires->Some_0 is Some
        },
        (start is V4 && end is V6) || (start is V6 && end is V4) ==> ban_fault(
            start,
            end,
            code,
            expires,
        ) == Some("start and end must be the same IP version"@),
        (start is V4 <==> end is V4) && code != 1 && code != 2 ==> ban_fault(
            start,
            end,
            code,
            expires,
        ) == Some("type must be 1 (readonly) or 2 (full)"@),
        (start is V4 <==> end is V4) && (code == 1 || code == 2) ==> ban_fault(
            start,
            end,
            code,
            Some(None),
        ) == Some("Invalid --expires timestamp"@),
{
}

/// A reason is shown as it is, and a dash where there is none.
pub proof fn lemma_reasons(reason: Seq<char>)
    ensures
        reason_text(Some(reason)) == reason,
        reason_text(None) == "-"@,
{
}

/// The object of the sentence stands behind these words and before a full
/// stop.
pub open spec fn says_of(s: Seq<char>, words: Seq<char>, object: Seq<char>) -> bool {
    s == words + object + "."@
}

/// What is said of an extension, a media type or a hash names it as it is; of
/// a user agent pattern, quoted; of a blacklist, its number.
pub proof fn lemma_messages_name_their_subject(subject: Subject)
    ensures
        subject matches Subject::Extension(e) ==> says_of(
            removed_text(subject),
            "Removed ban on extension "@,
            e@,
        ) && says_of(missing_text(subject), "No ban on extension "@, e@) && says_of(
            added_text(subject),
            "Banned extension "@,
            e@,
        ),
        subject matches Subject::Mime(m) ==> says_of(
            removed_text(subject),
            "Removed ban on mime "@,
            m@,
        ) && says_of(missing_text(subject), "No ban on mime "@, m@) && says_of(
            added_text(subject),
            "Banned mime "@,
            m@,
        ),
        subject matches Subject::Hash(h) ==> says_of(
            removed_text(subject),
            "Removed ban on hash "@,
            h@,
        ) && says_of(missing_text(subject), "No ban on hash "@, h@) && says_of(
            added_text(subject),
            "Banned hash "@,
            h@,
        ),
        subject matches Subject::UserAgent(p) ==> says_of(
            removed_text(subject),
            "Removed ban on user agent pattern "@,
            text::debug_form(p@),
        ) && says_of(
            missing_text(subject),
            "No ban on user agent pattern "@,
            text::debug_form(p@),
        ) && says_of(added_text(subject), "Banned user agent pattern "@, text::debug_form(p@)),
        subject matches Subject::Blacklist(id) ==> says_of(
            removed_text(subject),
            "Removed entry "@,
            text::decimal_int(id as int),
        ) && says_of(missing_text(subject), "No entry with id "@, text::decimal_int(id as int))
            && says_of(added_text(subject), "Added entry with id "@, text::decimal_int(id as int)),
{
}

/// The line for a range of banned addresses tells the number, the two ends and
/// their type in columns, then the reason, and when the ban ends.
pub proof fn lemma_ip_ban_line_columns(b: BannedIpRange)
    requires
        text::decimal_int(b.id as int).len() <= 6,
        util::or_empty(admin::stored_ip_text(b.start_ip@)).len() <= 15,
        util::or_empty(admin::stored_ip_text(b.end_ip@)).len() <= 15,
    ensures
        ({
            let line = ip_ban_line_text(b);
            let start = util::or_empty(admin::stored_ip_text(b.start_ip@));
            let end = util::or_empty(admin::stored_ip_text(b.end_ip@));
            &&& line.subrange(0, 6) == text::pad_start(text::decimal_int(b.id as int), 6)
            &&& line.subrange(8, 23) == text::pad_end(start, 15)
            &&& line[23] == '-'
            &&& line.subrange(24, 39) == text::pad_end(end, 15)
            &&& line.skip(39) == "  type="@ + text::pad_end(model::ban_name(b.type_), 8)
                + "  reason="@ + text::pad_end(
                match b.reason {
                    Some(r) => r@,
                    None => "-"@,
                },
                20,
            ) + "  expires="@ + (match b.expires_timestamp {
                Some(ts) => util::ts_text(ts),
                None => "never"@,
            })
            &&& b.expires_timestamp is None ==> "never"@.is_suffix_of(line)
            &&& b.expires_timestamp matches Some(ts) ==> util::ts_text(ts).is_suffix_of(line)
        }),
{
    let line = ip_ban_line_text(b);
    let id = text::pad_start(text::decimal_int(b.id as int), 6);
    let start = text::pad_end(util::or_empty(admin::stored_ip_text(b.start_ip@)), 15);
    let end = text::pad_end(util::or_empty(admin::stored_ip_text(b.end_ip@)), 15);
    text::lemma_padding(text::decimal_int(b.id as int), 6);
    text::lemma_padding(util::or_empty(admin::stored_ip_text(b.start_ip@)), 15);
    text::lemma_padding(util::or_empty(admin::stored_ip_text(b.end_ip@)), 15);
    reveal_strlit("  ");
    reveal_strlit("-");
    assert(line.subrange(0, 6) =~= id);
    assert(line.subrange(8, 23) =~= start);
    assert(line.subrange(24, 39) =~= end);
    let tail = match b.expires_timestamp {
        Some(ts) => util::ts_text(ts),
        None => "never"@,
    };
    let rest = "  type="@ + text::pad_end(model::ban_name(b.type_), 8) + "  reason="@
        + text::pad_end(reason_text(text::opt_view(b.reason)), 20) + "  expires="@ + tail;
    assert(line =~= id + "  "@ + start + "-"@ + end + rest);
    assert(line.skip(39) =~= rest);
    assert(line.subrange(line.len() - tail.len(), line.len() as int) =~= tail);
}

/// The line for a blacklist tells its number and its address in columns, then
/// its type and interval, and when it was last fetched.
pub proof fn lemma_blacklist_line_columns(b: Blacklist)
    requires
        text::decimal_int(b.id as int).len() <= 6,
        b.url@.len() <= 255,
    ensures
        ({
            let line = blacklist_line_text(b);
            &&& line.subrange(0, 6) == text::pad_start(text::decimal_int(b.id as int), 6)
            &&& line.subrange(8, 263) == text::pad_end(b.url@, 255)
            &&& line.skip(263) == "  type="@ + model::ban_name(b.type_) + "  interval="@
                + text::pad_start(text::decimal(b.update_interval_seconds as nat), 10)
                + "s  last_update="@ + (match b.last_update {
                Some(ts) => util::or_empty(timestamp::display_text(ts.nanos)),
                None => "never"@,
            })
        }),
{
    let line = blacklist_line_text(b);
    let id = text::pad_start(text::decimal_int(b.id as int), 6);
    let url = text::pad_end(b.url@, 255);
    text::lemma_padding(text::decimal_int(b.id as int), 6);
    text::lemma_padding(b.url@, 255);
    reveal_strlit("  ");
    let rest = "  type="@ + model::ban_name(b.type_) + "  interval="@ + text::pad_start(
        text::decimal(b.update_interval_seconds as nat),
        10,
    ) + "s  last_update="@ + (match b.last_update {
        Some(ts) => util::or_empty(timestamp::display_text(ts.nanos)),
        None => "never"@,
    });
    assert(line =~= id + "  "@ + url + rest);
    assert(line.subrange(0, 6) =~= id);
    assert(line.subrange(8, 263) =~= url);
    assert(line.skip(263) =~= rest);
}

} // verus!
