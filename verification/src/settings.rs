//! The settings that the rules go by.

use vstd::prelude::*;
use vstd::string::*;

use crate::text;
use crate::text::decimal_text;

verus! {

/// The part of the configuration that the rules read.
#[derive(Debug)]
pub struct Settings {
    /// The name of the service.
    pub name: String,
    /// What links begin with.
    pub base_url: String,
    /// The directory that uploads are stored in.
    pub store_path: String,
    /// The shortest random part of a slug.
    pub min_id_length: usize,
    /// The longest random part that a client may ask for.
    pub max_id_length: usize,
    /// The longest file extension that is kept, in bytes.
    pub max_ext_len: usize,
    /// Whether a file without extension gets one from its media type.
    pub auto_file_ext: bool,
    /// Whether the `X-Forwarded-For` header is believed; only for use behind
    /// a reverse proxy.
    pub trust_xff: bool,
    /// Whether a file that is already stored is not stored again.
    pub dedup: bool,
    /// How many uploads an address may make in a day.
    pub max_uploads_per_day: Option<u64>,
    /// How many bytes an address may upload in a day.
    pub max_bytes_per_day: Option<u64>,
    /// The token for the admin routes; without one they do not exist.
    pub admin_token: Option<String>,
    /// Where the virus scanner listens.
    pub clamd_addr: Option<String>,
}

/// What links begin with where the configuration does not say.
pub open spec fn default_base_url(addr: Seq<char>, port: u16) -> Seq<char> {
    "http://"@ + addr + ":"@ + text::decimal(port as nat) + "/"@
}

/// What links begin with.
pub fn base_url_or_default(configured: Option<String>, addr: &str, port: u16) -> (r: String)
    ensures
        r@ == (match configured {
            Some(url) => url@,
            None => default_base_url(addr@, port),
        }),
{
    match configured {
        Some(url) => url,
        None => {
            let mut out = "http://".to_owned();
            out.append(addr);
            out.append(":");
            let number = decimal_text(port as u64);
            out.append(number.as_str());
            out.append("/");
            out
        },
    }
}

/// The format of the access log: with the address behind the proxy where the
/// forwarding header is believed, else with that of the peer.
pub fn access_log_format(trust_xff: bool) -> (r: &'static str)
    ensures
        r@ == (if trust_xff {
            "%{r}a %t \"%r\" %s %b \"%{Referer}i\" \"%{User-Agent}i\" %T"@
        } else {
            "%a %t \"%r\" %s %b \"%{Referer}i\" \"%{User-Agent}i\" %T"@
        }),
{
    if trust_xff {
        "%{r}a %t \"%r\" %s %b \"%{Referer}i\" \"%{User-Agent}i\" %T"
    } else {
        "%a %t \"%r\" %s %b \"%{Referer}i\" \"%{User-Agent}i\" %T"
    }
}

/// The upper bound of a request's body in bytes.
pub fn body_limit(max_filesize_mib: usize) -> (r: Option<usize>)
    ensures
        r == (if max_filesize_mib * 1024 * 1024 <= usize::MAX {
            Some((max_filesize_mib * 1024 * 1024) as usize)
        } else {
            None
        }),
{
    if max_filesize_mib <= usize::MAX / 1048576 {
        Some(max_filesize_mib * 1024 * 1024)
    } else {
        None
    }
}

/// Links of a service whose address is not configured lead to its own address
/// and port, and end in a slash that a slug can follow.
pub proof fn lemma_default_base_url(addr: Seq<char>, port: u16)
    ensures
        ({
            let url = default_base_url(addr, port);
            &&& "http://"@.is_prefix_of(url)
            &&& url.last() == '/'
            &&& url.skip("http://"@.len() as int) == addr + seq![':'] + text::decimal(port as nat)
                + seq!['/']
        }),
{
    let url = default_base_url(addr, port);
    reveal_strlit("/");
    reveal_strlit(":");
    let n = "http://"@.len() as int;
    assert(url.subrange(0, n) =~= "http://"@);
    assert(url.skip(n) =~= addr + seq![':'] + text::decimal(port as nat) + seq!['/']);
}

} // verus!
