//! The configuration: which records to keep in sync, and how often.
use std::path::PathBuf;
use vstd::prelude::*;

verus! {

#[verifier::external_type_specification]
#[verifier::external_body]
pub struct ExPathBuf(PathBuf);

/// The path that `PathBuf::from` makes of a text.
pub uninterp spec fn path_of(text: Seq<char>) -> PathBuf;

/// `PathBuf::from(&String)`: the path whose text is `text`.
#[verifier::external_body]
fn path_from_text(text: &String) -> (p: PathBuf)
    ensures
        p == path_of(text@),
{
    PathBuf::from(text)
}

/// Which public address a record is kept in sync with.
#[allow(non_camel_case_types)]
#[derive(Debug, Clone, Copy, PartialEq, Eq, Structural)]
pub enum IpSource {
    v4,
    v6,
}

/// One DNS record to keep in sync.
#[derive(Debug)]
pub struct Record {
    pub name: String,
    pub ttl: Option<i64>,
    pub ip_source: IpSource,
}

/// The whole configuration file.
#[derive(Debug)]
pub struct Config {
    pub credentials_file: String,
    pub managed_zone: String,
    pub interval_secs: Option<u64>,
    pub records: Vec<Record>,
}

/// Why a parsed configuration is refused.
#[derive(Debug, PartialEq, Eq)]
pub enum ConfigError {
    /// The configuration lists no record.
    NoRecords,
    /// This record name does not end with a dot.
    NotFullyQualified(String),
}

/// The TTL and interval used when the configuration gives none.
pub const DEFAULT_SECS: u64 = 300;

/// The shortest interval between two rounds of updates.
pub const MIN_INTERVAL_SECS: u64 = 30;

/// Where the configuration is read from when neither the environment nor
/// the command line names a file.
pub open spec fn default_config_path() -> Seq<char> {
    "/config/config.json"@
}

/// A fully qualified domain name ends with a dot.
pub open spec fn is_fqdn(name: Seq<char>) -> bool {
    name.len() > 0 && name.last() == '.'
}

/// The record type that an address source implies.
pub open spec fn rtype_of(source: IpSource) -> Seq<char> {
    match source {
        IpSource::v4 => "A"@,
        IpSource::v6 => "AAAA"@,
    }
}

/// The TTL of a record as configured, or the default.
pub open spec fn ttl_of(ttl: Option<i64>) -> int {
    match ttl {
        Some(t) => t as int,
        None => DEFAULT_SECS as int,
    }
}

/// The interval between rounds as configured, or the default.
pub open spec fn interval_of(interval: Option<u64>) -> u64 {
    match interval {
        Some(v) => v,
        None => DEFAULT_SECS,
    }
}

/// Whether some record takes its address from `source`.
pub open spec fn uses_source(records: Seq<Record>, source: IpSource) -> bool {
    exists|i: int| 0 <= i < records.len() && #[trigger] records[i].ip_source == source
}

/// Whether `i` is the index of the first record whose name is not fully
/// qualified.
pub open spec fn first_unqualified(records: Seq<Record>, i: int) -> bool {
    &&& 0 <= i < records.len()
    &&& !is_fqdn(records[i].name@)
    &&& forall|j: int| 0 <= j < i ==> is_fqdn(#[trigger] records[j].name@)
}

/// The text of a configuration error.
pub open spec fn config_error_text(e: ConfigError) -> Seq<char> {
    match e {
        ConfigError::NoRecords => "no \"records\" defined in config"@,
        ConfigError::NotFullyQualified(name) => "record name '"@ + name@
            + "' must be a FQDN ending with '.'"@,
    }
}

/// Whether `name` ends with a dot.
pub fn ends_with_dot(name: &str) -> (r: bool)
    ensures
        r == is_fqdn(name@),
        r == (name@.len() > 0 && name@[name@.len() - 1] == '.'),
{
    let n = name.unicode_len();
    n > 0 && name.get_char(n - 1) == '.'
}

impl ConfigError {
    /// The message shown for this error.
    pub fn message(&self) -> (r: String)
        ensures
            r@ == config_error_text(*self),
    {
        match self {
            ConfigError::NoRecords => String::from_str("no \"records\" defined in config"),
            ConfigError::NotFullyQualified(name) => {
                let mut r = String::from_str("record name '");
                r.append(name.as_str());
                r.append("' must be a FQDN ending with '.'");
                r
            },
        }
    }
}

impl Config {
    /// The credentials file as a path.
    pub fn credentials_path(&self) -> (p: PathBuf)
        ensures
            p == path_of(self.credentials_file@),
    {
        path_from_text(&self.credentials_file)
    }

    /// The configured interval between rounds, or 300 seconds.
    pub fn interval_secs(&self) -> (r: u64)
        ensures
            r == interval_of(self.interval_secs),
            self.interval_secs matches Some(v) ==> r == v,
            self.interval_secs is None ==> r == 300,
    {
        match self.interval_secs {
            Some(v) => v,
            None => DEFAULT_SECS,
        }
    }

    /// The interval that the update loop sleeps: the configured one, but
    /// never less than 30 seconds.
    pub fn poll_interval_secs(&self) -> (r: u64)
        ensures
            r == if interval_of(self.interval_secs) < MIN_INTERVAL_SECS {
                MIN_INTERVAL_SECS
            } else {
                interval_of(self.interval_secs)
            },
            r >= MIN_INTERVAL_SECS,
            r >= 30,
            r == 30 || r == interval_of(self.interval_secs),
            interval_of(self.interval_secs) >= 30 ==> r == interval_of(self.interval_secs),
    {
        let v = self.interval_secs();
        if v < MIN_INTERVAL_SECS {
            MIN_INTERVAL_SECS
        } else {
            v
        }
    }

    /// The checks that loading makes on a parsed configuration: it lists at
    /// least one record, and every record name is fully qualified. The first
    /// record that fails is the one reported.
    pub fn validate(&self) -> (r: Result<(), ConfigError>)
        ensures
            r is Ok <==> self.records@.len() > 0 && forall|i: int|
                0 <= i < self.records@.len() ==> is_fqdn(#[trigger] self.records@[i].name@),
            r is Ok <==> self.records@.len() > 0 && forall|i: int|
                0 <= i < self.records@.len() ==> (#[trigger] self.records@[i].name@).len() > 0
                    && self.records@[i].name@[self.records@[i].name@.len() - 1] == '.',
            r == Err::<(), ConfigError>(ConfigError::NoRecords) <==> self.records@.len() == 0,
            forall|name: String|
                r == Err::<(), ConfigError>(ConfigError::NotFullyQualified(name)) <==> exists|i: int|
                    first_unqualified(self.records@, i) && #[trigger] self.records@[i].name == name,
    {
        if self.records.len() == 0 {
            return Err(ConfigError::NoRecords);
        }
        let n = self.records.len();
        for i in 0..n
            invariant
                n == self.records@.len(),
                forall|j: int| 0 <= j < i ==> is_fqdn(#[trigger] self.records@[j].name@),
        {
            if !ends_with_dot(self.records[i].name.as_str()) {
                let r = Err(ConfigError::NotFullyQualified(self.records[i].name.clone()));
                proof {
                    assert(first_unqualified(self.records@, i as int));
                    assert forall|name: String|
                        r == Err::<(), ConfigError>(ConfigError::NotFullyQualified(name)) <==> exists|k: int|
                            first_unqualified(self.records@, k) && #[trigger] self.records@[k].name == name by {
                        if exists|k: int| first_unqualified(self.records@, k) && #[trigger] self.records@[k].name == name {
                            let k = choose|k: int| first_unqualified(self.records@, k) && #[trigger] self.records@[k].name == name;
                            if k < i {
                                assert(is_fqdn(self.records@[k].name@));
                            } else if k > i {
                                assert(is_fqdn(self.records@[i as int].name@));
                            }
                        }
                    }
                }
                return r;
            }
        }
        Ok(())
    }

    /// Does any record need the IPv4 endpoint?
    pub fn needs_v4(&self) -> (r: bool)
        ensures
            r == uses_source(self.records@, IpSource::v4),
    {
        self.needs(IpSource::v4)
    }

    /// Does any record need the IPv6 endpoint?
    pub fn needs_v6(&self) -> (r: bool)
        ensures
            r == uses_source(self.records@, IpSource::v6),
    {
        self.needs(IpSource::v6)
    }

    fn needs(&self, source: IpSource) -> (r: bool)
        ensures
            r == uses_source(self.records@, source),
    {
        let n = self.records.len();
        for i in 0..n
            invariant
                n == self.records@.len(),
                forall|j: int| 0 <= j < i ==> #[trigger] self.records@[j].ip_source != source,
        {
            if self.records[i].ip_source == source {
                return true;
            }
        }
        false
    }
}

impl Record {
    /// The configured TTL, or 300 seconds.
    pub fn ttl(&self) -> (r: i64)
        ensures
            r == ttl_of(self.ttl),
            self.ttl matches Some(t) ==> r == t,
            self.ttl is None ==> r == 300,
    {
        match self.ttl {
            Some(t) => t,
            None => 300,
        }
    }

    /// The record type: `A` for an IPv4 source, `AAAA` for IPv6.
    pub fn rtype(&self) -> (r: &'static str)
        ensures
            r@ == rtype_of(self.ip_source),
            self.ip_source == IpSource::v4 ==> r@ == "A"@,
            self.ip_source == IpSource::v6 ==> r@ == "AAAA"@,
    {
        match self.ip_source {
            IpSource::v4 => "A",
            IpSource::v6 => "AAAA",
        }
    }
}

/// Chooses the configuration file: the `CONFIG_FILE` environment value if
/// set, else the first command-line argument, else `/config/config.json`.
pub fn config_path(env_value: Option<String>, first_arg: Option<String>) -> (r: String)
    ensures
        r@ == match (env_value, first_arg) {
            (Some(v), _) => v@,
            (None, Some(a)) => a@,
            (None, None) => default_config_path(),
        },
        env_value is None && first_arg is None ==> r@ == "/config/config.json"@,
{
    match env_value {
        Some(v) => v,
        None => match first_arg {
            Some(a) => a,
            None => String::from_str("/config/config.json"),
        },
    }
}

/// Whether a name is accepted as fully qualified depends on its last
/// character alone, which must be a dot: two names that end alike are
/// accepted alike, whatever else they hold.
pub proof fn lemma_fqdn_is_trailing_dot(a: Seq<char>, b: Seq<char>)
    ensures
        is_fqdn(a) <==> a.len() > 0 && a[a.len() - 1] == '.',
        a.len() > 0 && b.len() > 0 && a[a.len() - 1] == b[b.len() - 1] ==> is_fqdn(a) == is_fqdn(b),
{
}

/// A configuration is accepted exactly when it lists a record and every
/// record name ends with a dot; no other character of a name matters.
pub proof fn lemma_validate_accepts_trailing_dots(cfg: Config, r: Result<(), ConfigError>)
    requires
        r is Ok <==> cfg.records@.len() > 0 && forall|i: int|
            0 <= i < cfg.records@.len() ==> is_fqdn(#[trigger] cfg.records@[i].name@),
    ensures
        r is Ok <==> cfg.records@.len() > 0 && forall|i: int|
            0 <= i < cfg.records@.len() ==> (#[trigger] cfg.records@[i].name@).len() > 0
                && cfg.records@[i].name@[cfg.records@[i].name@.len() - 1] == '.',
{
}

/// The TTL of a record is the configured one whenever one is given, and
/// 300 seconds only when none is.
pub proof fn lemma_configured_ttl_wins(ttl: Option<i64>, t: i64)
    ensures
        ttl == Some(t) ==> ttl_of(ttl) == t,
        ttl is None ==> ttl_of(ttl) == 300,
{
}

} // verus!
