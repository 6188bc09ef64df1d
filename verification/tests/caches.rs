use filehost::ban_cache::{hash_in_list, in_list, matches_any, BanCache, Fetched};
use filehost::challenge::ChallengeCache;
use filehost::ip::IpAddr;
use filehost::model::BanType;
use filehost::screening::Check;
use filehost::rate_limit::{UploadThrottle, IDLE_NANOS};
use filehost::ttl_cache::{Finding, Inquiry, KeyedTtlCache};

fn list(items: &[&str]) -> Vec<String> {
    items.iter().map(|s| s.to_string()).collect()
}

#[test]
fn entries_hold_for_their_time() {
    let mut c: KeyedTtlCache<IpAddr, u32> = KeyedTtlCache::new(10);
    let (a, b) = (IpAddr::V4(1), IpAddr::V4(2));
    assert_eq!(c.get(&a, 0), None);
    c.set(a, 7, 100);
    assert_eq!(c.get(&a, 100), Some(&7));
    assert_eq!(c.get(&a, 109), Some(&7));
    assert_eq!(c.get(&a, 110), None);
    assert_eq!(c.get(&a, 50), Some(&7));
    assert_eq!(c.get(&b, 100), None);
    c.set(a, 8, 105);
    assert_eq!(c.get(&a, 110), Some(&8));
    c.refresh(b, 9, 120, 120);
    assert_eq!(c.get(&a, 105), None);
    assert_eq!(c.get(&b, 121), Some(&9));
    c.invalidate();
    assert_eq!(c.get(&b, 121), None);
    let mut none: KeyedTtlCache<(), u32> = KeyedTtlCache::new(0);
    none.refresh((), 1, 5, 5);
    assert_eq!(none.get(&(), 5), None);
}

#[test]
fn ban_lists() {
    let mut c = BanCache::new(10);
    assert_eq!(c.is_extension_banned("exe", 0), None);
    c.refresh_extensions(list(&["exe", "bat"]), 0, 0);
    assert_eq!(c.is_extension_banned("EXE", 9), Some(true));
    assert_eq!(c.is_extension_banned("txt", 9), Some(false));
    assert_eq!(c.is_extension_banned("exe", 10), None);
    c.refresh_mimes(list(&["image/png"]), 0, 0);
    assert_eq!(c.is_mime_banned("Image/PNG", 1), Some(true));
    assert_eq!(c.is_mime_banned("image/png; x=1", 1), Some(false));
    c.refresh_hashes(vec![vec![1, 2], vec![3]], 0, 0);
    assert_eq!(c.is_hash_banned(&[3], 1), Some(true));
    assert_eq!(c.is_hash_banned(&[1], 1), Some(false));
    c.refresh_user_agents(&list(&["Curl", "bot/"]), 0, 0);
    assert_eq!(c.is_user_agent_banned("cURL/8.0", 1), Some(true));
    assert_eq!(c.is_user_agent_banned("GoogleBot/2", 1), Some(true));
    assert_eq!(c.is_user_agent_banned("Mozilla", 1), Some(false));
    let ip = IpAddr::V4(5);
    assert_eq!(c.is_ip_banned(ip, BanType::Full, 1), None);
    c.refresh_ip(ip, BanType::Full, false, 1, 1);
    c.refresh_ip(ip, BanType::ReadOnly, true, 1, 1);
    assert_eq!(c.is_ip_banned(ip, BanType::Full, 1), Some(false));
    assert_eq!(c.is_ip_banned(ip, BanType::ReadOnly, 1), Some(true));
    c.invalidate_ip_ranges();
    assert_eq!(c.is_ip_banned(ip, BanType::ReadOnly, 1), None);
    assert_eq!(c.is_extension_banned("exe", 1), Some(true));
    c.invalidate_extensions();
    c.invalidate_mimes();
    c.invalidate_hashes();
    c.invalidate_user_agents();
    assert_eq!(c.is_extension_banned("exe", 1), None);
    assert_eq!(c.is_mime_banned("image/png", 1), None);
    assert_eq!(c.is_hash_banned(&[3], 1), None);
    assert_eq!(c.is_user_agent_banned("curl", 1), None);
}

#[test]
fn list_lookups() {
    assert!(in_list(&list(&["a", "b"]), "b"));
    assert!(!in_list(&list(&["a", "b"]), "ab"));
    assert!(hash_in_list(&vec![vec![], vec![1]], &[]));
    assert!(!hash_in_list(&vec![], &[]));
    assert!(matches_any(&list(&["x", "ell"]), "hello"));
    assert!(matches_any(&list(&[""]), "hello"));
    assert!(!matches_any(&list(&["Ell"]), "hello"));
    assert!(!matches_any(&list(&[]), "hello"));
}

#[test]
fn a_solved_challenge_counts_at_once() {
    let mut c = ChallengeCache::new(10);
    let ip = IpAddr::V6(9);
    assert_eq!(c.is_ip_verified(ip, 0), None);
    assert_eq!(c.settle(ip, Err("down"), 0, 0), Some("down"));
    assert_eq!(c.is_ip_verified(ip, 0), None);
    assert_eq!(c.settle::<&str>(ip, Ok(false), 0, 0), None);
    assert_eq!(c.is_ip_verified(ip, 1), Some(false));
    c.mark_ip_verified(ip, 1);
    assert_eq!(c.is_ip_verified(ip, 1), Some(true));
    assert_eq!(c.is_ip_verified(ip, 10), Some(true));
    assert_eq!(c.is_ip_verified(ip, 11), None);
}

#[test]
fn idle_buckets_are_forgotten() {
    let mut t = UploadThrottle::new();
    let (a, b) = (IpAddr::V4(1), IpAddr::V4(2));
    assert_eq!(t.bucket(a, 0), None);
    t.store(a, 77, 1000);
    assert_eq!(t.bucket(a, 1000 + IDLE_NANOS - 1), Some((1000, 77)));
    assert_eq!(t.bucket(a, 1000 + IDLE_NANOS), None);
    t.store(b, 5, 1000 + IDLE_NANOS);
    assert_eq!(t.bucket(a, 1000), None);
    assert_eq!(t.bucket(b, 1000 + IDLE_NANOS), Some((1000 + IDLE_NANOS, 5)));
}

#[test]
fn what_was_learned_is_recalled() {
    let mut c = BanCache::new(10);
    let ip = Check::Ip(IpAddr::V4(5));
    let ext = Check::Extension("EXE".to_string());
    let mime = Check::Mime("Image/PNG".to_string());
    let hash = Check::Hash(vec![3]);
    let agent = Check::UserAgent("cURL/8".to_string());
    let quota = Check::UploadCount(IpAddr::V4(5), 1);
    for q in [&ip, &ext, &mime, &hash, &agent, &quota] {
        assert_eq!(c.recall(q, 0), None);
    }
    assert_eq!(c.learn(&ip, Fetched::Flag(true), 0, 0), Some(true));
    assert_eq!(c.learn(&ext, Fetched::Texts(list(&["exe"])), 0, 0), Some(true));
    assert_eq!(c.learn(&mime, Fetched::Texts(list(&["image/gif"])), 0, 0), Some(false));
    assert_eq!(c.learn(&hash, Fetched::Hashes(vec![vec![3]]), 0, 0), Some(true));
    assert_eq!(c.learn(&agent, Fetched::Texts(list(&["Curl"])), 0, 0), Some(true));
    assert_eq!(c.learn(&quota, Fetched::Flag(true), 0, 0), None);
    assert_eq!(c.learn(&ip, Fetched::Texts(list(&["x"])), 0, 0), None);
    assert_eq!(c.recall(&ip, 9), Some(true));
    assert_eq!(c.recall(&ext, 9), Some(true));
    assert_eq!(c.recall(&mime, 9), Some(false));
    assert_eq!(c.recall(&hash, 9), Some(true));
    assert_eq!(c.recall(&agent, 9), Some(true));
    assert_eq!(c.recall(&quota, 9), None);
    assert_eq!(c.recall(&ip, 10), None);
}

/// Asks a cache for a value, and a source whose replies are counted.
fn ask(
    c: &mut KeyedTtlCache<(), u32>,
    now: u64,
    reply: Result<u32, &'static str>,
    fetches: &mut u32,
) -> Result<u32, &'static str> {
    let mut inquiry = Inquiry::new();
    loop {
        inquiry = match inquiry {
            Inquiry::Peeking | Inquiry::Checking => {
                inquiry.advance(Finding::Look(c.get(&(), now).copied()))
            }
            Inquiry::Fetching => {
                *fetches += 1;
                let failed = c.settle((), reply, now, now);
                assert_eq!(failed, reply.err());
                inquiry.advance(Finding::Reply(reply))
            }
            Inquiry::Answered(answer) => return answer,
        };
    }
}

#[test]
fn a_miss_fetches_once_and_a_failure_is_not_kept() {
    let mut c: KeyedTtlCache<(), u32> = KeyedTtlCache::new(10);
    let mut fetches = 0;
    assert_eq!(ask(&mut c, 100, Err("down"), &mut fetches), Err("down"));
    assert_eq!((fetches, c.get(&(), 100)), (1, None));
    assert_eq!(ask(&mut c, 100, Ok(7), &mut fetches), Ok(7));
    assert_eq!(fetches, 2);
    assert_eq!(ask(&mut c, 109, Ok(8), &mut fetches), Ok(7));
    assert_eq!(ask(&mut c, 109, Err("down"), &mut fetches), Ok(7));
    assert_eq!(fetches, 2);
    assert_eq!(ask(&mut c, 110, Err("down"), &mut fetches), Err("down"));
    assert_eq!(ask(&mut c, 110, Ok(9), &mut fetches), Ok(9));
    assert_eq!(fetches, 4);
    c.set((), 10, 111);
    assert_eq!(ask(&mut c, 112, Ok(11), &mut fetches), Ok(10));
    c.invalidate();
    assert_eq!(ask(&mut c, 112, Ok(11), &mut fetches), Ok(11));
    assert_eq!(fetches, 5);
}

#[test]
fn findings_of_another_step_change_nothing() {
    let hit = |v| Finding::<u32, ()>::Look(Some(v));
    let miss = || Finding::<u32, ()>::Look(None);
    let i = Inquiry::new().advance(Finding::Reply(Ok(1)));
    assert!(matches!(i, Inquiry::Peeking));
    let i = i.advance(miss()).advance(Finding::Reply(Ok(1)));
    assert!(matches!(i, Inquiry::Checking));
    let i = i.advance(miss()).advance(hit(2));
    assert!(matches!(i, Inquiry::Fetching));
    let i = i.advance(Finding::Reply(Err(()))).advance(hit(3)).advance(Finding::Reply(Ok(4)));
    assert!(matches!(i, Inquiry::Answered(Err(()))));
    let i = Inquiry::new().advance(miss()).advance(hit(5));
    assert!(matches!(i, Inquiry::Answered(Ok(5))));
}

#[test]
fn a_failed_question_is_asked_again() {
    let mut c = BanCache::new(10);
    let ip = Check::Ip(IpAddr::V4(5));
    assert_eq!(c.settle(&ip, Err("down"), "stray", 0, 0), Err("down"));
    assert_eq!(c.recall(&ip, 0), None);
    assert_eq!(c.settle(&ip, Ok(Fetched::Hashes(vec![])), "stray", 0, 0), Err("stray"));
    assert_eq!(c.recall(&ip, 0), None);
    assert_eq!(c.settle(&ip, Ok(Fetched::Flag(true)), "stray", 0, 0), Ok(true));
    assert_eq!(c.recall(&ip, 9), Some(true));
    assert_eq!(c.settle(&ip, Err("down"), "stray", 9, 9), Err("down"));
    assert_eq!(c.recall(&ip, 9), Some(true));
    assert_eq!(c.recall(&ip, 10), None);
}
