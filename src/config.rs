use vstd::prelude::*;

verus! {

/// The value a setting takes: the environment wins over the command line,
/// which wins over the built-in default.
pub open spec fn resolved(env: Option<Seq<char>>, arg: Option<Seq<char>>, default: Seq<char>) -> Seq<char> {
    match env {
        Some(e) => e,
        None => match arg {
            Some(a) => a,
            None => default,
        },
    }
}

pub open spec fn opt_view(o: Option<&str>) -> Option<Seq<char>> {
    match o {
        Some(s) => Some(s@),
        None => None,
    }
}

/// Resolves one setting from its environment value, its command-line value
/// and its default.
pub fn resolve_setting(env: Option<&str>, arg: Option<&str>, default: &str) -> (r: String)
    ensures
        r@ == resolved(opt_view(env), opt_view(arg), default@),
{
    match env {
        Some(e) => e.to_string(),
        None => match arg {
            Some(a) => a.to_string(),
            None => default.to_string(),
        },
    }
}

pub const DEFAULT_IDENTIFIER: &'static str = "identifier_not_set";
pub const DEFAULT_BACKEND_HOSTNAME: &'static str = "127.0.0.1";
pub const DEFAULT_BACKEND_PORT: &'static str = "4000";
pub const DEFAULT_BACKEND_USERNAME: &'static str = "admin@media-io.com";
pub const DEFAULT_BACKEND_PASSWORD: &'static str = "admin123";
pub const DEFAULT_BACKEND_SECURE: &'static str = "false";
pub const DEFAULT_ROOT_PATH_BROWSING: &'static str = "/tmp/";
pub const DEFAULT_MOUNTED_NAME_PATH_BROWSING: &'static str = "H:/NTS2018 mp4s/";
pub const DEFAULT_LOG_FILENAME: &'static str = "tests/AMEEncodingLog.txt";
pub const DEFAULT_DATA_SIZE: &'static str = "64000";

/// The agent's identifier (environment variable `IDENTIFIER`).
pub fn get_identifier(env: Option<&str>, arg: Option<&str>) -> (r: String)
    ensures
        r@ == resolved(opt_view(env), opt_view(arg), DEFAULT_IDENTIFIER@),
{
    resolve_setting(env, arg, DEFAULT_IDENTIFIER)
}

/// The backend's host name (environment variable `BACKEND_HOSTNAME`).
pub fn get_backend_hostname(env: Option<&str>, arg: Option<&str>) -> (r: String)
    ensures
        r@ == resolved(opt_view(env), opt_view(arg), DEFAULT_BACKEND_HOSTNAME@),
{
    resolve_setting(env, arg, DEFAULT_BACKEND_HOSTNAME)
}

/// The backend's port (environment variable `BACKEND_PORT`).
pub fn get_backend_port(env: Option<&str>, arg: Option<&str>) -> (r: String)
    ensures
        r@ == resolved(opt_view(env), opt_view(arg), DEFAULT_BACKEND_PORT@),
{
    resolve_setting(env, arg, DEFAULT_BACKEND_PORT)
}

/// The login name (environment variable `BACKEND_USERNAME`).
pub fn get_backend_username(env: Option<&str>, arg: Option<&str>) -> (r: String)
    ensures
        r@ == resolved(opt_view(env), opt_view(arg), DEFAULT_BACKEND_USERNAME@),
{
    resolve_setting(env, arg, DEFAULT_BACKEND_USERNAME)
}

/// The login password (environment variable `BACKEND_PASSWORD`).
pub fn get_backend_password(env: Option<&str>, arg: Option<&str>) -> (r: String)
    ensures
        r@ == resolved(opt_view(env), opt_view(arg), DEFAULT_BACKEND_PASSWORD@),
{
    resolve_setting(env, arg, DEFAULT_BACKEND_PASSWORD)
}

/// Whether to use TLS (environment variable `BACKEND_SECURE`).
pub fn get_backend_secure(env: Option<&str>, arg: Option<&str>) -> (r: String)
    ensures
        r@ == resolved(opt_view(env), opt_view(arg), DEFAULT_BACKEND_SECURE@),
{
    resolve_setting(env, arg, DEFAULT_BACKEND_SECURE)
}

/// The local root that browsing and path rewriting use
/// (environment variable `ROOT_PATH_BROWSING`).
pub fn get_root_path_browsing(env: Option<&str>, arg: Option<&str>) -> (r: String)
    ensures
        r@ == resolved(opt_view(env), opt_view(arg), DEFAULT_ROOT_PATH_BROWSING@),
{
    resolve_setting(env, arg, DEFAULT_ROOT_PATH_BROWSING)
}

/// The mount prefix that path rewriting replaces
/// (environment variable `MOUNTED_NAME_PATH_BROWSING`).
pub fn get_mounted_name_path_browsing(env: Option<&str>, arg: Option<&str>) -> (r: String)
    ensures
        r@ == resolved(opt_view(env), opt_view(arg), DEFAULT_MOUNTED_NAME_PATH_BROWSING@),
{
    resolve_setting(env, arg, DEFAULT_MOUNTED_NAME_PATH_BROWSING)
}

/// The encoder log to tail (environment variable
/// `ADOBE_MEDIA_ENCODER_LOG_FILENAME`).
pub fn get_adobe_media_encoder_log_filename(env: Option<&str>, arg: Option<&str>) -> (r: String)
    ensures
        r@ == resolved(opt_view(env), opt_view(arg), DEFAULT_LOG_FILENAME@),
{
    resolve_setting(env, arg, DEFAULT_LOG_FILENAME)
}

/// The upload chunk size in bytes, as text (environment variable `DATA_SIZE`).
pub fn get_data_size(env: Option<&str>, arg: Option<&str>) -> (r: String)
    ensures
        r@ == resolved(opt_view(env), opt_view(arg), DEFAULT_DATA_SIZE@),
{
    resolve_setting(env, arg, DEFAULT_DATA_SIZE)
}

/// Whether a secure flag's text switches TLS on.
pub open spec fn is_secure_flag(s: Seq<char>) -> bool {
    s == "true"@ || s == "True"@ || s == "TRUE"@ || s == "1"@
}

/// Reads the secure flag: `true`, `True`, `TRUE` and `1` switch TLS on,
/// anything else leaves it off.
pub fn parse_secure(s: &str) -> (r: bool)
    ensures
        r == is_secure_flag(s@),
{
    let t = s.to_string();
    t == "true".to_string() || t == "True".to_string() || t == "TRUE".to_string() || t == "1".to_string()
}

/// The decimal value of a string of ASCII digits.
pub open spec fn decimal_value(s: Seq<char>) -> nat
    decreases s.len(),
{
    if s.len() == 0 {
        0
    } else {
        (decimal_value(s.drop_last()) * 10 + (s.last() as int - '0' as int)) as nat
    }
}

pub open spec fn all_digits(s: Seq<char>) -> bool {
    forall|i: int| 0 <= i < s.len() ==> '0' <= #[trigger] s[i] <= '9'
}

/// Reads a chunk size: a non-empty run of decimal digits whose value is
/// positive and fits in a `u64`; anything else is refused.
pub fn parse_chunk_size(s: &str) -> (r: Option<u64>)
    ensures
        r.is_some() <==> (s@.len() > 0 && all_digits(s@) && 0 < decimal_value(s@) <= u64::MAX),
        r.is_some() ==> r.unwrap() as nat == decimal_value(s@),
{
    let n = s.unicode_len();
    if n == 0 {
        return None;
    }
    let mut acc: u64 = 0;
    let mut i: usize = 0;
    while i < n
        invariant
            n == s@.len(),
            i <= n,
            all_digits(s@.subrange(0, i as int)),
            acc as nat == decimal_value(s@.subrange(0, i as int)),
        decreases n - i,
    {
        let c = s.get_char(i);
        if c < '0' || c > '9' {
            assert(!all_digits(s@)) by {
                assert(s@[i as int] == c);
            }
            return None;
        }
        let d: u64 = (c as u32 - '0' as u32) as u64;
        assert(s@.subrange(0, i + 1).drop_last() == s@.subrange(0, i as int));
        if acc > (u64::MAX - d) / 10 {
            proof {
                assert(acc * 10 + d > u64::MAX) by (nonlinear_arith)
                    requires acc > (u64::MAX - d) / 10, d <= 9;
                if all_digits(s@) {
                    lemma_decimal_prefix_bound(s@, (i + 1) as int);
                }
            }
            return None;
        }
        acc = acc * 10 + d;
        i = i + 1;
        assert(all_digits(s@.subrange(0, i as int))) by {
            assert forall|k: int| 0 <= k < i implies '0' <= #[trigger] s@.subrange(0, i as int)[k] <= '9' by {
                if k < i - 1 {
                    assert(s@.subrange(0, i as int)[k] == s@.subrange(0, i - 1)[k]);
                }
            }
        }
    }
    assert(s@.subrange(0, n as int) == s@);
    if acc == 0 {
        None
    } else {
        Some(acc)
    }
}

/// A value read from a prefix of a digit string never exceeds the value of
/// the whole string.
proof fn lemma_decimal_prefix_bound(s: Seq<char>, k: int)
    requires
        0 <= k <= s.len(),
        all_digits(s),
    ensures
        decimal_value(s.subrange(0, k)) <= decimal_value(s),
    decreases s.len() - k,
{
    if k < s.len() {
        lemma_decimal_prefix_bound(s, k + 1);
        assert(s.subrange(0, k + 1).drop_last() == s.subrange(0, k));
        assert(s.subrange(0, k + 1).last() == s[k]);
    } else {
        assert(s.subrange(0, k) == s);
    }
}

} // verus!
