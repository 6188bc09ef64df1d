//! Queries whose text depends on what is asked, and the hourly counts.

use vstd::prelude::*;
use vstd::string::*;

use crate::ip::IpAddr;
use crate::screening;
use crate::text::same_text;
use crate::timestamp;
use crate::timestamp::{describe, Timestamp};
use crate::util;
use crate::util::{format_ts, text_or_empty};

verus! {

// ---------------------------------------------------------------- listing

/// A value that is bound to a query.
#[derive(Debug)]
pub enum ListParam {
    /// The least image score, which the caller holds.
    MinScore,
    Ip(IpAddr),
    Slug(String),
    Number(i64),
}

/// What a bound value is.
pub enum ListParamView {
    MinScore,
    Ip(IpAddr),
    Slug(Seq<char>),
    Number(i64),
}

impl View for ListParam {
    type V = ListParamView;

    open spec fn view(&self) -> ListParamView {
        match *self {
            ListParam::MinScore => ListParamView::MinScore,
            ListParam::Ip(ip) => ListParamView::Ip(ip),
            ListParam::Slug(s) => ListParamView::Slug(s@),
            ListParam::Number(n) => ListParamView::Number(n),
        }
    }
}

/// A query and the values for its placeholders, in order.
#[derive(Debug)]
pub struct ListQuery {
    pub sql: String,
    pub params: Vec<ListParam>,
}

/// Which uploads to list.
#[derive(Debug)]
pub struct UploadFilter {
    pub ip: Option<IpAddr>,
    pub slug: Option<String>,
    pub include_deleted: bool,
    pub has_min_score: bool,
    pub limit: i64,
    pub offset: i64,
}

/// The text where the condition holds, else nothing.
pub open spec fn text_if(condition: bool, s: Seq<char>) -> Seq<char> {
    if condition {
        s
    } else {
        Seq::empty()
    }
}

/// What every listing begins with.
pub open spec fn list_head() -> Seq<char> {
    "SELECT id, upload_timestamp, expiry_timestamp, deleted_timestamp, original_name, slug, file_size, hash, uploader_ip, content_type, user_agent, nsfw_score FROM uploads WHERE 1=1"@
}

/// The query for a listing: newest first, with one condition for each thing
/// that is asked for.
pub open spec fn list_sql(f: UploadFilter) -> Seq<char> {
    list_head() + text_if(!f.include_deleted, " AND deleted_timestamp IS NULL"@) + text_if(
        f.has_min_score,
        " AND nsfw_score >= ?"@,
    ) + text_if(f.ip is Some, " AND uploader_ip = ?"@) + text_if(f.slug is Some, " AND slug = ?"@)
        + " ORDER BY upload_timestamp DESC LIMIT ? OFFSET ?"@
}

/// The values for the placeholders of a listing, in order.
pub open spec fn list_params(f: UploadFilter) -> Seq<ListParamView> {
    screening::at_most_one(
        if f.has_min_score {
            Some(ListParamView::MinScore)
        } else {
            None
        },
    ) + screening::at_most_one(
        match f.ip {
            Some(ip) => Some(ListParamView::Ip(ip)),
            None => None,
        },
    ) + screening::at_most_one(
        match f.slug {
            Some(s) => Some(ListParamView::Slug(s@)),
            None => None,
        },
    ) + seq![ListParamView::Number(f.limit), ListParamView::Number(f.offset)]
}

/// The views of a list of values.
pub open spec fn param_views(params: Seq<ListParam>) -> Seq<ListParamView> {
    params.map_values(|p: ListParam| p@)
}

fn add_param(params: &mut Vec<ListParam>, param: ListParam)
    ensures
        param_views(final(params)@) == param_views(old(params)@).push(param@),
{
    let ghost before = params@;
    params.push(param);
    assert(param_views(params@) =~= param_views(before).push(param@));
}

/// The query for a listing.
pub fn list_uploads(f: &UploadFilter) -> (r: ListQuery)
    ensures
        r.sql@ == list_sql(*f),
        param_views(r.params@) == list_params(*f),
{
    let mut sql =
        "SELECT id, upload_timestamp, expiry_timestamp, deleted_timestamp, original_name, slug, file_size, hash, uploader_ip, content_type, user_agent, nsfw_score FROM uploads WHERE 1=1".to_owned();
    let mut params: Vec<ListParam> = Vec::new();
    if !f.include_deleted {
        sql.append(" AND deleted_timestamp IS NULL");
    }
    assert(sql@ =~= list_head() + text_if(
        !f.include_deleted,
        " AND deleted_timestamp IS NULL"@,
    ));
    if f.has_min_score {
        sql.append(" AND nsfw_score >= ?");
        add_param(&mut params, ListParam::MinScore);
    }
    if let Some(ip) = f.ip {
        sql.append(" AND uploader_ip = ?");
        add_param(&mut params, ListParam::Ip(ip));
    }
    if let Some(slug) = &f.slug {
        sql.append(" AND slug = ?");
        add_param(&mut params, ListParam::Slug(slug.clone()));
    }
    sql.append(" ORDER BY upload_timestamp DESC LIMIT ? OFFSET ?");
    add_param(&mut params, ListParam::Number(f.limit));
    add_param(&mut params, ListParam::Number(f.offset));
    assert(sql@ =~= list_sql(*f));
    assert(param_views(params@) =~= list_params(*f));
    ListQuery { sql, params }
}

/// How many placeholders a query has.
pub open spec fn placeholders(sql: Seq<char>) -> nat
    decreases sql.len(),
{
    if sql.len() == 0 {
        0
    } else {
        placeholders(sql.drop_last()) + (if sql.last() == '?' {
            1nat
        } else {
            0nat
        })
    }
}

proof fn lemma_placeholders_add(a: Seq<char>, b: Seq<char>)
    ensures
        placeholders(a + b) == placeholders(a) + placeholders(b),
    decreases b.len(),
{
    if b.len() == 0 {
        assert(a + b =~= a);
    } else {
        lemma_placeholders_add(a, b.drop_last());
        assert((a + b).drop_last() =~= a + b.drop_last());
    }
}

proof fn lemma_no_placeholder(s: Seq<char>)
    requires
        forall|i: int| 0 <= i < s.len() ==> s[i] != '?',
    ensures
        placeholders(s) == 0,
    decreases s.len(),
{
    if s.len() > 0 {
        lemma_no_placeholder(s.drop_last());
    }
}

proof fn lemma_one_placeholder(s: Seq<char>, k: int)
    requires
        0 <= k < s.len(),
        forall|i: int| 0 <= i < s.len() && i != k ==> s[i] != '?',
        s[k] == '?',
    ensures
        placeholders(s) == 1,
    decreases s.len(),
{
    if k == s.len() - 1 {
        lemma_no_placeholder(s.drop_last());
    } else {
        lemma_one_placeholder(s.drop_last(), k);
    }
}

/// A listing has a value for each of its placeholders.
pub proof fn lemma_list_params_fit(f: UploadFilter)
    ensures
        placeholders(list_sql(f)) == list_params(f).len(),
{
    reveal_strlit(
        "SELECT id, upload_timestamp, expiry_timestamp, deleted_timestamp, original_name, slug, file_size, hash, uploader_ip, content_type, user_agent, nsfw_score FROM uploads WHERE 1=1",
    );
    reveal_strlit(" AND deleted_timestamp IS NULL");
    reveal_strlit(" AND nsfw_score >= ?");
    reveal_strlit(" AND uploader_ip = ?");
    reveal_strlit(" AND slug = ?");
    reveal_strlit(" ORDER BY upload_timestamp DESC LIMIT ? OFFSET ?");
    let a = list_head();
    let b = text_if(!f.include_deleted, " AND deleted_timestamp IS NULL"@);
    let c = text_if(f.has_min_score, " AND nsfw_score >= ?"@);
    let d = text_if(f.ip is Some, " AND uploader_ip = ?"@);
    let e = text_if(f.slug is Some, " AND slug = ?"@);
    let g = " ORDER BY upload_timestamp DESC LIMIT ? OFFSET ?"@;
    lemma_no_placeholder(a);
    lemma_no_placeholder(b);
    if f.has_min_score {
        lemma_one_placeholder(c, c.len() - 1);
    }
    if f.ip is Some {
        lemma_one_placeholder(d, d.len() - 1);
    }
    if f.slug is Some {
        lemma_one_placeholder(e, e.len() - 1);
    }
    let first = g.take(39);
    let second = g.skip(39);
    assert(first + second =~= g);
    lemma_one_placeholder(first, 38);
    lemma_one_placeholder(second, second.len() - 1);
    lemma_placeholders_add(first, second);
    lemma_placeholders_add(a, b);
    lemma_placeholders_add(a + b, c);
    lemma_placeholders_add(a + b + c, d);
    lemma_placeholders_add(a + b + c + d, e);
    lemma_placeholders_add(a + b + c + d + e, g);
}

// ---------------------------------------------------------------- deleting

/// Which uploads to delete.
#[derive(Debug)]
pub enum DeleteTarget {
    Expired,
    Id(u128),
    Slug(String),
    Ip(IpAddr),
    IpRange(IpAddr, IpAddr),
}

/// The condition that picks the uploads to delete.
pub open spec fn delete_condition(target: DeleteTarget) -> Seq<char> {
    match target {
        DeleteTarget::Expired => "expiry_timestamp <= NOW()"@,
        DeleteTarget::Id(_) => "id = ?"@,
        DeleteTarget::Slug(_) => "slug = ?"@,
        DeleteTarget::Ip(_) => "uploader_ip = ?"@,
        DeleteTarget::IpRange(..) => "uploader_ip BETWEEN ? AND ?"@,
    }
}

/// How many values a delete target binds.
pub open spec fn delete_values(target: DeleteTarget) -> nat {
    match target {
        DeleteTarget::Expired => 0,
        DeleteTarget::Id(_) => 1,
        DeleteTarget::Slug(_) => 1,
        DeleteTarget::Ip(_) => 1,
        DeleteTarget::IpRange(..) => 2,
    }
}

/// The query for the uploads to delete: those that meet the condition and are
/// not deleted yet.
pub open spec fn delete_sql(target: DeleteTarget) -> Seq<char> {
    "SELECT id, slug, original_name FROM uploads WHERE "@ + delete_condition(target)
        + " AND deleted_timestamp IS NULL"@
}

/// The query for the uploads to delete.
pub fn delete_matching(target: &DeleteTarget) -> (r: String)
    ensures
        r@ == delete_sql(*target),
{
    let condition = match target {
        DeleteTarget::Expired => "expiry_timestamp <= NOW()",
        DeleteTarget::Id(_) => "id = ?",
        DeleteTarget::Slug(_) => "slug = ?",
        DeleteTarget::Ip(_) => "uploader_ip = ?",
        DeleteTarget::IpRange(_, _) => "uploader_ip BETWEEN ? AND ?",
    };
    let mut sql = "SELECT id, slug, original_name FROM uploads WHERE ".to_owned();
    sql.append(condition);
    sql.append(" AND deleted_timestamp IS NULL");
    sql
}

/// A deletion has a value for each of its placeholders.
pub proof fn lemma_delete_values_fit(target: DeleteTarget)
    ensures
        placeholders(delete_sql(target)) == delete_values(target),
{
    reveal_strlit("SELECT id, slug, original_name FROM uploads WHERE ");
    reveal_strlit(" AND deleted_timestamp IS NULL");
    reveal_strlit("expiry_timestamp <= NOW()");
    reveal_strlit("id = ?");
    reveal_strlit("slug = ?");
    reveal_strlit("uploader_ip = ?");
    reveal_strlit("uploader_ip BETWEEN ? AND ?");
    let a = "SELECT id, slug, original_name FROM uploads WHERE "@;
    let b = delete_condition(target);
    let c = " AND deleted_timestamp IS NULL"@;
    lemma_no_placeholder(a);
    lemma_no_placeholder(c);
    match target {
        DeleteTarget::Expired => lemma_no_placeholder(b),
        DeleteTarget::IpRange(..) => {
            let first = b.take(21);
            let second = b.skip(21);
            assert(first + second =~= b);
            lemma_one_placeholder(first, 20);
            lemma_one_placeholder(second, second.len() - 1);
            lemma_placeholders_add(first, second);
        },
        _ => lemma_one_placeholder(b, b.len() - 1),
    }
    lemma_placeholders_add(a, b);
    lemma_placeholders_add(a + b, c);
}

// ---------------------------------------------------------------- others

/// The query for the images to score: all that are not deleted, or only those
/// without a score.
pub fn uploads_for_nsfw_scan(all: bool) -> (r: String)
    ensures
        r@
            == "SELECT id FROM uploads WHERE deleted_timestamp IS NULL AND content_type LIKE 'image/%'"@
            + text_if(!all, " AND nsfw_score IS NULL"@),
{
    let mut sql =
        "SELECT id FROM uploads WHERE deleted_timestamp IS NULL AND content_type LIKE 'image/%'".to_owned();
    if !all {
        sql.append(" AND nsfw_score IS NULL");
    }
    sql
}

/// The query for whether a slug stands in the way of a new record. A live
/// upload gives way to live records and to historical ones whose time is not
/// up; a historical one gives way to any.
pub fn slug_check_sql(historical: bool) -> (r: &'static str)
    ensures
        r@ == (if historical {
            "SELECT 1 AS found FROM uploads WHERE slug = ?"@
        } else {
            "SELECT 1 AS found FROM uploads WHERE slug = ? AND (deleted_timestamp IS NULL OR deleted_timestamp > NOW())"@
        }),
{
    if historical {
        "SELECT 1 AS found FROM uploads WHERE slug = ?"
    } else {
        "SELECT 1 AS found FROM uploads WHERE slug = ? AND (deleted_timestamp IS NULL OR deleted_timestamp > NOW())"
    }
}

/// The query for whether a slug is in use, before it is given to an upload
/// that is being received: whether a live record has it.
pub fn slug_taken_sql() -> (r: &'static str)
    ensures
        r@ == "SELECT 1 AS found FROM uploads WHERE slug = ? AND deleted_timestamp IS NULL"@,
{
    "SELECT 1 AS found FROM uploads WHERE slug = ? AND deleted_timestamp IS NULL"
}

// ---------------------------------------------------------------- by hour

/// How many uploads fall into an hour.
#[derive(Debug)]
pub struct HourlyUploadCount {
    pub hour: String,
    pub count: i64,
}

/// A count by the text of its hour.
#[derive(Debug)]
pub struct HourRow {
    pub bucket: String,
    pub count: i64,
}

/// The count of an hour: that of the last row for it, or 0.
pub open spec fn bucket_count(rows: Seq<HourRow>, key: Seq<char>) -> i64
    decreases rows.len(),
{
    if rows.len() == 0 {
        0
    } else if rows.last().bucket@ == key {
        rows.last().count
    } else {
        bucket_count(rows.drop_last(), key)
    }
}

/// The count of an hour.
pub fn count_in(rows: &Vec<HourRow>, key: &str) -> (r: i64)
    ensures
        r == bucket_count(rows@, key@),
{
    let mut i: usize = rows.len();
    assert(rows@.take(i as int) =~= rows@);
    while i > 0
        invariant
            i <= rows@.len(),
            bucket_count(rows@.take(i as int), key@) == bucket_count(rows@, key@),
        decreases i,
    {
        assert(rows@.take(i as int).last() == rows@[i - 1]);
        assert(rows@.take(i as int).drop_last() =~= rows@.take(i - 1));
        if same_text(rows[i - 1].bucket.as_str(), key) {
            return rows[i - 1].count;
        }
        i -= 1;
    }
    0
}

/// The form in which the database names an hour.
pub const HOUR_KEY: &'static str = "[year]-[month]-[day]T[hour]:00:00";

/// The start of the hour that lies so many hours back.
pub open spec fn hour_back(now: Timestamp, back: int) -> int {
    now.nanos - now.nanos as int % timestamp::NANOS_PER_HOUR as int - back
        * timestamp::NANOS_PER_HOUR
}

/// What the rows say of an hour.
pub open spec fn hour_entry(rows: Seq<HourRow>, nanos: i128) -> (Seq<char>, i64) {
    (
        util::or_empty(timestamp::rfc3339_text(nanos)),
        bucket_count(rows, util::or_empty(timestamp::described(nanos, HOUR_KEY@))),
    )
}

/// The counts of the last hours, the current one last: one for each hour, 0
/// where there is no row.
pub open spec fn hour_entries(rows: Seq<HourRow>, now: Timestamp, hours: nat) -> Seq<
    (Seq<char>, i64),
> {
    Seq::new(
        hours,
        |i: int| hour_entry(rows, hour_back(now, hours - 1 - i) as i128),
    )
}

/// The views of a list of counts.
pub open spec fn count_views(counts: Seq<HourlyUploadCount>) -> Seq<(Seq<char>, i64)> {
    counts.map_values(|c: HourlyUploadCount| (c.hour@, c.count))
}

/// The number of hours, none for a negative number.
pub open spec fn hours_of(hours: i64) -> nat {
    if hours > 0 {
        hours as nat
    } else {
        0
    }
}

/// The counts of the last hours before a point in time.
pub fn hourly_counts_at(rows: &Vec<HourRow>, hours: i64, now: Timestamp) -> (r: Vec<
    HourlyUploadCount,
>)
    requires
        now.valid(),
        hours > 0 ==> timestamp::in_range(hour_back(now, hours - 1)),
    ensures
        count_views(r@) == hour_entries(rows@, now, hours_of(hours)),
{
    let start = now.hour_start();
    let mut out: Vec<HourlyUploadCount> = Vec::new();
    let mut i: i64 = 0;
    let ghost total = hours_of(hours);
    let ghost all = hour_entries(rows@, now, total);
    assert(count_views(out@) =~= all.take(0));
    while i < hours
        invariant
            0 <= i,
            i <= total,
            total == hours_of(hours),
            now.valid(),
            start.nanos == hour_back(now, 0),
            hours > 0 ==> timestamp::in_range(hour_back(now, hours - 1)),
            all == hour_entries(rows@, now, total),
            count_views(out@) == all.take(i as int),
        decreases hours - i,
    {
        let back: i64 = hours - 1 - i;
        assert(start.nanos - back * timestamp::NANOS_PER_HOUR == hour_back(now, back as int));
        assert(back * timestamp::NANOS_PER_HOUR <= (hours - 1) * timestamp::NANOS_PER_HOUR);
        let slot: i128 = start.nanos - back as i128 * timestamp::NANOS_PER_HOUR;
        let key = text_or_empty(describe(slot, HOUR_KEY));
        let ghost before = out@;
        let hour = format_ts(Timestamp { nanos: slot });
        let count: i64 = count_in(rows, key.as_str());
        out.push(HourlyUploadCount { hour, count });
        proof {
            assert(all[i as int] == hour_entry(rows@, slot));
            assert(count_views(out@) =~= count_views(before).push(all[i as int]));
            assert(all.take(i + 1) =~= all.take(i as int).push(all[i as int]));
        }
        i += 1;
    }
    assert(all.take(total as int) =~= all);
    out
}

/// The outcome is that of counting the last hours before a point in time: none
/// where they go back too far.
pub open spec fn counted(
    r: Option<Vec<HourlyUploadCount>>,
    rows: Seq<HourRow>,
    hours: i64,
    now: Timestamp,
) -> bool {
    &&& r is Some == (hours <= 0 || timestamp::in_range(hour_back(now, hours - 1)))
    &&& r matches Some(counts) ==> count_views(counts@) == hour_entries(rows, now, hours_of(hours))
}

/// The counts of the last hours before a point in time. None where they go
/// back too far.
pub fn hourly_counts_on(rows: &Vec<HourRow>, hours: i64, now: Timestamp) -> (r: Option<
    Vec<HourlyUploadCount>,
>)
    requires
        now.valid(),
    ensures
        counted(r, rows@, hours, now),
{
    let start = now.hour_start();
    let first: i128 = start.nanos - (hours as i128 - 1) * timestamp::NANOS_PER_HOUR;
    assert(first == hour_back(now, hours - 1));
    if hours <= 0 || (timestamp::FIRST_NANO <= first && first <= timestamp::LAST_NANO) {
        Some(hourly_counts_at(rows, hours, now))
    } else {
        None
    }
}

/// The counts of the last hours. None where they go back too far.
pub fn uploads_hourly_counts(rows: &Vec<HourRow>, hours: i64) -> (r: Option<
    Vec<HourlyUploadCount>,
>)
    ensures
        exists|now: Timestamp| now.valid() && #[trigger] counted(r, rows@, hours, now),
        hours <= 1 ==> r is Some,
{
    let now = Timestamp::now();
    let r = hourly_counts_on(rows, hours, now);
    proof {
        assert(counted(r, rows@, hours, now));
        if hours == 1 {
            let part = now.nanos as int % timestamp::NANOS_PER_HOUR as int;
            assert(hour_back(now, 0) == now.nanos - part);
            assert(timestamp::in_range(hour_back(now, 0)));
        }
    }
    r
}

// ---------------------------------------------------------------- laws

/// A listing leaves deleted uploads out exactly where that is wanted, and is
/// narrowed by each thing that is asked for: every condition adds its own text
/// and takes nothing from the others.
pub proof fn lemma_listing_conditions(f: UploadFilter)
    ensures
        ({
            let sql = list_sql(f);
            let tail = " ORDER BY upload_timestamp DESC LIMIT ? OFFSET ?"@;
            &&& list_head().is_prefix_of(sql)
            &&& tail.is_suffix_of(sql)
            &&& f.slug is Some ==> (" AND slug = ?"@ + tail).is_suffix_of(sql)
            &&& f.ip is Some && f.slug is None ==> (" AND uploader_ip = ?"@ + tail).is_suffix_of(
                sql,
            )
            &&& f.ip is Some && f.slug is Some ==> (" AND uploader_ip = ?"@ + " AND slug = ?"@
                + tail).is_suffix_of(sql)
            &&& !f.include_deleted ==> (list_head()
                + " AND deleted_timestamp IS NULL"@).is_prefix_of(sql)
            &&& f.has_min_score && !f.include_deleted ==> (list_head()
                + " AND deleted_timestamp IS NULL"@ + " AND nsfw_score >= ?"@).is_prefix_of(sql)
            &&& f.has_min_score && f.include_deleted ==> (list_head()
                + " AND nsfw_score >= ?"@).is_prefix_of(sql)
            &&& sql.len() == list_head().len() + tail.len() + (if f.include_deleted {
                0int
            } else {
                30int
            }) + (if f.has_min_score {
                20int
            } else {
                0int
            }) + (if f.ip is Some {
                20int
            } else {
                0int
            }) + (if f.slug is Some {
                13int
            } else {
                0int
            })
        }),
{
    reveal_strlit(" AND deleted_timestamp IS NULL");
    reveal_strlit(" AND nsfw_score >= ?");
    reveal_strlit(" AND uploader_ip = ?");
    reveal_strlit(" AND slug = ?");
    let sql = list_sql(f);
    let tail = " ORDER BY upload_timestamp DESC LIMIT ? OFFSET ?"@;
    let n = sql.len() as int;
    let head = list_head();
    assert(sql.subrange(0, head.len() as int) =~= head);
    assert(sql.subrange(n - tail.len(), n) =~= tail);
    if f.slug is Some {
        let t = " AND slug = ?"@ + tail;
        assert(sql.subrange(n - t.len(), n) =~= t);
    }
    if f.ip is Some && f.slug is None {
        let t = " AND uploader_ip = ?"@ + tail;
        assert(sql.subrange(n - t.len(), n) =~= t);
    }
    if f.ip is Some && f.slug is Some {
        let t = " AND uploader_ip = ?"@ + " AND slug = ?"@ + tail;
        assert(sql.subrange(n - t.len(), n) =~= t);
    }
    if !f.include_deleted {
        let t = head + " AND deleted_timestamp IS NULL"@;
        assert(sql.subrange(0, t.len() as int) =~= t);
    }
    if f.has_min_score && !f.include_deleted {
        let t = head + " AND deleted_timestamp IS NULL"@ + " AND nsfw_score >= ?"@;
        assert(sql.subrange(0, t.len() as int) =~= t);
    }
    if f.has_min_score && f.include_deleted {
        let t = head + " AND nsfw_score >= ?"@;
        assert(sql.subrange(0, t.len() as int) =~= t);
    }
}

/// The values of a listing are those that were asked for, in the order of the
/// conditions, with the number of entries and where they begin at the end.
pub proof fn lemma_listing_values(f: UploadFilter, p: ListParamView)
    ensures
        list_params(f).len() >= 2,
        list_params(f)[list_params(f).len() - 2] == ListParamView::Number(f.limit),
        list_params(f).last() == ListParamView::Number(f.offset),
        list_params(f).take(list_params(f).len() - 2).contains(p) <==> (match p {
            ListParamView::MinScore => f.has_min_score,
            ListParamView::Ip(ip) => f.ip == Some(ip),
            ListParamView::Slug(s) => f.slug is Some && f.slug->Some_0@ == s,
            ListParamView::Number(_) => false,
        }),
{
    let all = list_params(f);
    let front = all.take(all.len() - 2);
    let a: int = if f.has_min_score {
        1
    } else {
        0
    };
    let b: int = if f.ip is Some {
        1
    } else {
        0
    };
    if f.has_min_score {
        assert(front[0] == ListParamView::MinScore);
    }
    if f.ip is Some {
        assert(front[a] == ListParamView::Ip(f.ip->Some_0));
    }
    if f.slug is Some {
        assert(front[a + b] == ListParamView::Slug(f.slug->Some_0@));
    }
}

/// Only uploads that are not deleted yet are deleted, and only those that the
/// target picks.
pub proof fn lemma_what_is_deleted(target: DeleteTarget)
    ensures
        " AND deleted_timestamp IS NULL"@.is_suffix_of(delete_sql(target)),
        (match target {
            DeleteTarget::Expired => delete_condition(target) == "expiry_timestamp <= NOW()"@,
            DeleteTarget::Id(_) => delete_condition(target) == "id = ?"@,
            DeleteTarget::Slug(_) => delete_condition(target) == "slug = ?"@,
            DeleteTarget::Ip(_) => delete_condition(target) == "uploader_ip = ?"@,
            DeleteTarget::IpRange(..) => delete_condition(target) == "uploader_ip BETWEEN ? AND ?"@,
        }),
        crate::text::contains_run(delete_sql(target), delete_condition(target)),
{
    let sql = delete_sql(target);
    let front = "SELECT id, slug, original_name FROM uploads WHERE "@;
    let tail = " AND deleted_timestamp IS NULL"@;
    let n = sql.len() as int;
    assert(sql.subrange(n - tail.len(), n) =~= tail);
    assert(sql =~= front + delete_condition(target) + tail);
    crate::text::lemma_contained_text(sql, delete_condition(target));
}

/// The count of an hour is that of the last row with its text, and 0 where no
/// row has it.
pub proof fn lemma_count_of_an_hour(rows: Seq<HourRow>, key: Seq<char>, i: int)
    ensures
        0 <= i < rows.len() && rows[i].bucket@ == key && (forall|j: int|
            i < j < rows.len() ==> (#[trigger] rows[j]).bucket@ != key) ==> bucket_count(rows, key)
            == rows[i].count,
        (forall|j: int| 0 <= j < rows.len() ==> (#[trigger] rows[j]).bucket@ != key)
            ==> bucket_count(rows, key) == 0,
    decreases rows.len(),
{
    if rows.len() > 0 {
        let front = rows.drop_last();
        let last = rows.len() - 1;
        lemma_count_of_an_hour(front, key, i);
        if 0 <= i < rows.len() && rows[i].bucket@ == key && (forall|j: int|
            i < j < rows.len() ==> (#[trigger] rows[j]).bucket@ != key) {
            if i < last {
                assert(rows[last].bucket@ != key);
                assert forall|j: int| i < j < front.len() implies (#[trigger] front[j]).bucket@
                    != key by {
                    assert(rows[j].bucket@ != key);
                }
                assert(front[i] == rows[i]);
            }
        }
        if forall|j: int| 0 <= j < rows.len() ==> (#[trigger] rows[j]).bucket@ != key {
            assert(rows[last].bucket@ != key);
            assert forall|j: int| 0 <= j < front.len() implies (#[trigger] front[j]).bucket@
                != key by {
                assert(rows[j].bucket@ != key);
            }
        }
    }
}

/// There is one count for each of the last hours, the current one last: each
/// begins on the hour, one hour after the one before it.
pub proof fn lemma_hours_in_order(rows: Seq<HourRow>, now: Timestamp, hours: nat, i: int)
    requires
        now.valid(),
        0 <= i < hours,
        timestamp::in_range(hour_back(now, hours - 1)),
    ensures
        hour_entries(rows, now, hours).len() == hours,
        hour_back(now, 0) <= now.nanos < hour_back(now, 0) + 3_600_000_000_000,
        hour_back(now, 0) % 3_600_000_000_000 == 0,
        hour_back(now, i) == hour_back(now, 0) - i * 3_600_000_000_000,
        hour_entries(rows, now, hours)[i] == (
            util::or_empty(
                timestamp::rfc3339_text(
                    (hour_back(now, 0) - (hours - 1 - i) * 3_600_000_000_000) as i128,
                ),
            ),
            bucket_count(
                rows,
                util::or_empty(
                    timestamp::described(
                        (hour_back(now, 0) - (hours - 1 - i) * 3_600_000_000_000) as i128,
                        "[year]-[month]-[day]T[hour]:00:00"@,
                    ),
                ),
            ),
        ),
{
    assert(hour_back(now, hours - 1 - i) == hour_back(now, 0) - (hours - 1 - i)
        * 3_600_000_000_000);
}

/// A negative number of hours counts as none.
pub proof fn lemma_number_of_hours(hours: i64)
    ensures
        hours >= 0 ==> hours_of(hours) == hours,
        hours < 0 ==> hours_of(hours) == 0,
{
}

/// What is shown of an hour: its start, and the count of its row.
pub proof fn lemma_shown_counts(
    counts: Vec<HourlyUploadCount>,
    rows: Seq<HourRow>,
    hours: i64,
    now: Timestamp,
    i: int,
)
    requires
        now.valid(),
        counted(Some(counts), rows, hours, now),
        0 <= i < hours,
    ensures
        counts@.len() == hours,
        ({
            let start = (hour_back(now, 0) - (hours - 1 - i) * 3_600_000_000_000) as i128;
            &&& counts@[i].hour@ == util::or_empty(timestamp::rfc3339_text(start))
            &&& counts@[i].count == bucket_count(
                rows,
                util::or_empty(
                    timestamp::described(start, "[year]-[month]-[day]T[hour]:00:00"@),
                ),
            )
        }),
{
    lemma_hours_in_order(rows, now, hours as nat, i);
    assert(count_views(counts@).len() == counts@.len());
    assert(count_views(counts@)[i] == (counts@[i].hour@, counts@[i].count));
}

/// The counts are there as long as the first of the hours is a date.
pub proof fn lemma_when_there_are_counts(
    r: Option<Vec<HourlyUploadCount>>,
    rows: Seq<HourRow>,
    hours: i64,
    now: Timestamp,
)
    requires
        counted(r, rows, hours, now),
    ensures
        hours <= 0 ==> r is Some && r->Some_0@.len() == 0,
        hours > 0 ==> (r is Some <==> timestamp::in_range(
            hour_back(now, 0) - (hours - 1) * 3_600_000_000_000,
        )),
{
    assert(hour_back(now, hours - 1) == hour_back(now, 0) - (hours - 1) * 3_600_000_000_000);
    if hours <= 0 {
        assert(count_views(r->Some_0@).len() == r->Some_0@.len());
    }
}

/// The values that are bound are those that a query holds.
pub proof fn lemma_bound_values(params: Seq<ListParam>, i: int)
    requires
        0 <= i < params.len(),
    ensures
        param_views(params).len() == params.len(),
        (match params[i] {
            ListParam::MinScore => param_views(params)[i] is MinScore,
            ListParam::Ip(ip) => param_views(params)[i] == ListParamView::Ip(ip),
            ListParam::Slug(s) => param_views(params)[i] == ListParamView::Slug(s@),
            ListParam::Number(n) => param_views(params)[i] == ListParamView::Number(n),
        }),
{
}

} // verus!
