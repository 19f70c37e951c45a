//! Configuration values the server is built from: the validated port, the log
//! level, and the server configuration record with its defaults. Reading and
//! writing the configuration file is I/O and lives outside the core; the core
//! only validates and assembles the plain values.

use vstd::prelude::*;
use vstd::string::StrSliceExecFns;
use crate::strutil::push_char;

verus! {

/// A configuration value could not be accepted.
#[derive(Debug)]
#[allow(inconsistent_fields)]
pub enum ConfigError {
    /// The port number lies outside 1..=65535.
    InvalidPort { received: u32 },
    /// A value could not be parsed as what was expected.
    FailedToParse { expected: String, received: String },
}

/// The verbosity cap of the logger.
#[derive(Clone, Copy, Debug, PartialEq, Eq, Structural)]
pub enum LogLevel {
    Off,
    Error,
    Warn,
    Info,
    Debug,
    Trace,
}

impl LogLevel {
    /// The lowercase token this level is stored as in the configuration file.
    pub open spec fn spec_str(&self) -> Seq<char> {
        match self {
            LogLevel::Off => "off"@,
            LogLevel::Error => "error"@,
            LogLevel::Warn => "warn"@,
            LogLevel::Info => "info"@,
            LogLevel::Debug => "debug"@,
            LogLevel::Trace => "trace"@,
        }
    }

    /// The level a token names, or `None` for any other string.
    pub open spec fn spec_parse(s: Seq<char>) -> Option<LogLevel> {
        if s == "off"@ {
            Some(LogLevel::Off)
        } else if s == "error"@ {
            Some(LogLevel::Error)
        } else if s == "warn"@ {
            Some(LogLevel::Warn)
        } else if s == "info"@ {
            Some(LogLevel::Info)
        } else if s == "debug"@ {
            Some(LogLevel::Debug)
        } else if s == "trace"@ {
            Some(LogLevel::Trace)
        } else {
            None
        }
    }

    pub fn as_str(&self) -> (r: &'static str)
        ensures
            r@ == self.spec_str(),
    {
        match self {
            LogLevel::Off => "off",
            LogLevel::Error => "error",
            LogLevel::Warn => "warn",
            LogLevel::Info => "info",
            LogLevel::Debug => "debug",
            LogLevel::Trace => "trace",
        }
    }

    pub fn parse(s: &str) -> (r: Option<LogLevel>)
        ensures
            r == Self::spec_parse(s@),
    {
        if crate::strutil::str_eq(s, "off") {
            Some(LogLevel::Off)
        } else if crate::strutil::str_eq(s, "error") {
            Some(LogLevel::Error)
        } else if crate::strutil::str_eq(s, "warn") {
            Some(LogLevel::Warn)
        } else if crate::strutil::str_eq(s, "info") {
            Some(LogLevel::Info)
        } else if crate::strutil::str_eq(s, "debug") {
            Some(LogLevel::Debug)
        } else if crate::strutil::str_eq(s, "trace") {
            Some(LogLevel::Trace)
        } else {
            None
        }
    }
}

/// Formatting a log level and parsing the token back yields the same level,
/// and a token that parses reformats to the same token.
pub proof fn lemma_log_level_round_trip(level: LogLevel, s: Seq<char>)
    ensures
        LogLevel::spec_parse(level.spec_str()) == Some(level),
        LogLevel::spec_parse(s) matches Some(t) ==> t.spec_str() == s,
{
    reveal_strlit("off");
    reveal_strlit("error");
    reveal_strlit("warn");
    reveal_strlit("info");
    reveal_strlit("debug");
    reveal_strlit("trace");
    assert("off"@.len() == 3);
    assert("error"@.len() == 5);
    assert("warn"@.len() == 4);
    assert("info"@.len() == 4);
    assert("debug"@.len() == 5);
    assert("trace"@.len() == 5);
    assert("error"@[0] == 'e' && "debug"@[0] == 'd' && "trace"@[0] == 't');
    assert("warn"@[0] == 'w' && "info"@[0] == 'i');
}

/// A decimal digit.
pub open spec fn is_digit(c: char) -> bool {
    '0' <= c && c <= '9'
}

/// The numeric value of a digit character.
pub open spec fn digit_val(c: char) -> int {
    c as int - 48
}

/// Every character of the string is a decimal digit.
pub open spec fn all_digits(s: Seq<char>) -> bool {
    forall|i: int| 0 <= i < s.len() ==> is_digit(#[trigger] s[i])
}

/// The numeric value of a digit string, most significant digit first.
pub open spec fn str_val(s: Seq<char>) -> int
    decreases s.len(),
{
    if s.len() == 0 {
        0
    } else {
        str_val(s.drop_last()) * 10 + digit_val(s.last())
    }
}

/// A digit string's value never shrinks when digits are appended.
pub proof fn lemma_str_val_monotone(s: Seq<char>, i: int)
    requires
        all_digits(s),
        0 <= i <= s.len(),
    ensures
        str_val(s.take(i)) <= str_val(s),
        str_val(s) >= 0,
    decreases s.len() - i,
{
    if i == s.len() {
        assert(s.take(i) =~= s);
        lemma_str_val_nonneg(s);
    } else {
        lemma_str_val_monotone(s, i + 1);
        assert(s.take(i + 1).drop_last() =~= s.take(i));
        assert(is_digit(s.take(i + 1).last())) by {
            assert(s.take(i + 1).last() == s[i]);
        }
        lemma_str_val_nonneg(s.take(i));
    }
}

/// A digit string's value is not negative.
pub proof fn lemma_str_val_nonneg(s: Seq<char>)
    requires
        all_digits(s),
    ensures
        str_val(s) >= 0,
    decreases s.len(),
{
    if s.len() > 0 {
        assert(all_digits(s.drop_last())) by {
            assert forall|i: int| 0 <= i < s.drop_last().len() implies is_digit(
                #[trigger] s.drop_last()[i],
            ) by {
                assert(s.drop_last()[i] == s[i]);
            }
        }
        lemma_str_val_nonneg(s.drop_last());
        assert(is_digit(s.last()));
    }
}

/// Parses a decimal number. `None` exactly when the string is empty, holds a
/// non-digit, or names a value that does not fit the result type.
#[verifier::loop_isolation(false)]
pub fn parse_u32(s: &str) -> (r: Option<u32>)
    ensures
        (match r {
            Some(v) => s@.len() > 0 && all_digits(s@) && str_val(s@) <= u32::MAX && v as int
                == str_val(s@),
            None => s@.len() == 0 || !all_digits(s@) || str_val(s@) > u32::MAX,
        }),
{
    let n = s.unicode_len();
    if n == 0 {
        return None;
    }
    let mut v: u32 = 0;
    let mut i: usize = 0;
    while i < n
        invariant
            i <= n,
            all_digits(s@.take(i as int)),
            v as int == str_val(s@.take(i as int)),
        decreases n - i,
    {
        let c = s.get_char(i);
        if !('0' <= c && c <= '9') {
            proof {
                assert(!is_digit(s@[i as int]));
            }
            return None;
        }
        let d: u32 = (c as u32) - 48;
        proof {
            assert(s@.take(i + 1).drop_last() =~= s@.take(i as int));
            assert(s@.take(i + 1).last() == s@[i as int]);
        }
        if v > (u32::MAX - d) / 10 {
            proof {
                assert(str_val(s@.take(i + 1)) > u32::MAX);
                if all_digits(s@) {
                    lemma_str_val_monotone(s@, i + 1);
                }
            }
            return None;
        }
        v = v * 10 + d;
        i = i + 1;
    }
    proof {
        assert(s@.take(n as int) =~= s@);
    }
    Some(v)
}

/// A validated network port: a number in 1..=65535.
#[derive(Clone, Copy, Debug, PartialEq, Eq, Structural)]
pub struct Port(pub u32);

impl Port {
    /// Accepts a number as a port exactly when it lies in 1..=65535.
    pub fn new(port: u32) -> (r: Result<Port, ConfigError>)
        ensures
            1 <= port <= 65535 ==> r == Ok::<Port, ConfigError>(Port(port)),
            !(1 <= port <= 65535) ==> (r matches Err(e) && e matches ConfigError::InvalidPort {
                received,
            } && received == port),
    {
        if port >= 1 && port <= 65535 {
            Ok(Port(port))
        } else {
            Err(ConfigError::InvalidPort { received: port })
        }
    }

    /// The number behind the port.
    pub fn get(&self) -> (r: u32)
        ensures
            r == self.0,
    {
        self.0
    }

    /// Parses a port from its decimal text: `FailedToParse` when the text is
    /// not a number that fits, `InvalidPort` when the number lies outside
    /// 1..=65535.
    pub fn from_str(s: &str) -> (r: Result<Port, ConfigError>)
        ensures
            (s@.len() > 0 && all_digits(s@) && 1 <= str_val(s@) <= 65535) <==> (r matches Ok(p)
                && p.0 as int == str_val(s@)),
            (s@.len() == 0 || !all_digits(s@) || str_val(s@) > u32::MAX) ==> (r matches Err(e)
                && e matches ConfigError::FailedToParse { expected, received }),
            (s@.len() > 0 && all_digits(s@) && str_val(s@) <= u32::MAX && !(1 <= str_val(s@)
                <= 65535)) ==> (r matches Err(e) && e matches ConfigError::InvalidPort { received }
                && received as int == str_val(s@)),
    {
        match parse_u32(s) {
            Some(v) => match Port::new(v) {
                Ok(p) => Ok(p),
                Err(e) => Err(e),
            },
            None => Err(
                ConfigError::FailedToParse {
                    expected: "Valid u16".to_owned(),
                    received: "port".to_owned(),
                },
            ),
        }
    }
}

/// The server's configuration, passed explicitly into each component at
/// construction: no process-wide mutable state stands in for it.
pub struct ServerConfig {
    pub http_port: Port,
    pub use_http: bool,
    pub log_level: LogLevel,
    pub log_path: Option<String>,
    pub env_override: bool,
    pub db_url: String,
    pub db_port: Port,
    pub db_user: String,
    pub db_pass: String,
    pub db_name: String,
}

impl Default for ServerConfig {
    /// The out-of-the-box configuration: HTTP on port 8000, informational
    /// logging to the working directory, and a local database.
    fn default() -> (r: Self)
        ensures
            r.http_port == Port(8000),
            r.use_http == true,
            r.log_level == LogLevel::Info,
            (r.log_path matches Some(p) && p@ == "./"@),
            r.env_override == true,
            r.db_url@ == "localhost"@,
            r.db_port == Port(3306),
            r.db_user@ == "occult"@,
            r.db_pass@ == "occult"@,
            r.db_name@ == "occult_db"@,
    {
        ServerConfig {
            http_port: Port(8000),
            use_http: true,
            log_level: LogLevel::Info,
            log_path: Some("./".to_owned()),
            env_override: true,
            db_url: "localhost".to_owned(),
            db_port: Port(3306),
            db_user: "occult".to_owned(),
            db_pass: "occult".to_owned(),
            db_name: "occult_db".to_owned(),
        }
    }
}

/// The configuration a non-interactive setup starts from: exactly the
/// defaults, deterministically and without any prompt or file access.
pub fn create_config() -> (r: ServerConfig)
    ensures
        r.http_port == Port(8000),
        r.use_http == true,
        r.log_level == LogLevel::Info,
        (r.log_path matches Some(p) && p@ == "./"@),
        r.env_override == true,
        r.db_url@ == "localhost"@,
        r.db_port == Port(3306),
        r.db_user@ == "occult"@,
        r.db_pass@ == "occult"@,
        r.db_name@ == "occult_db"@,
{
    ServerConfig::default()
}

/// The data directory under a working directory.
pub fn get_data_dir(working_dir: &str) -> (r: String)
    ensures
        r@ == working_dir@ + "/data"@,
{
    let mut s = working_dir.to_owned();
    s.append("/data");
    s
}

/// The server directory under a working directory.
pub fn get_server_dir(working_dir: &str) -> (r: String)
    ensures
        r@ == working_dir@ + "/server"@,
{
    let mut s = working_dir.to_owned();
    s.append("/server");
    s
}

/// The decimal text of a number, most significant digit first, no leading
/// zeros except for zero itself.
pub open spec fn spec_decimal(v: int) -> Seq<char>
    decreases v,
{
    if v < 0 {
        Seq::<char>::empty()
    } else if v < 10 {
        seq![((48 + v) as u8) as char]
    } else {
        spec_decimal(v / 10).push(((48 + v % 10) as u8) as char)
    }
}

/// Renders a number as decimal text.
pub fn u32_to_string(v: u32) -> (r: String)
    ensures
        r@ == spec_decimal(v as int),
    decreases v,
{
    if v < 10 {
        let mut s = String::new();
        let c = ((48 + v) as u8) as char;
        push_char(&mut s, c);
        proof {
            assert(s@ =~= spec_decimal(v as int));
        }
        s
    } else {
        let mut s = u32_to_string(v / 10);
        let c = ((48 + v % 10) as u8) as char;
        push_char(&mut s, c);
        s
    }
}

impl ServerConfig {
    /// The database connection string assembled from the configuration:
    /// user, password, host, port and database name in the usual URL shape.
    pub fn connection_string(&self) -> (r: String)
        ensures
            r@ == "mysql://"@ + self.db_user@ + ":"@ + self.db_pass@ + "@"@ + self.db_url@ + ":"@
                + spec_decimal(self.db_port.0 as int) + "/"@ + self.db_name@,
    {
        let mut s = "mysql://".to_owned();
        s.append(self.db_user.as_str());
        s.append(":");
        s.append(self.db_pass.as_str());
        s.append("@");
        s.append(self.db_url.as_str());
        s.append(":");
        let port = u32_to_string(self.db_port.get());
        s.append(port.as_str());
        s.append("/");
        s.append(self.db_name.as_str());
        s
    }
}

} // verus!
