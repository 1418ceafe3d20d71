//! The user configuration of the command-line clients: service
//! endpoints, credentials and per-host options, as the configuration
//! file carries them.
//!
//! File discovery and ini parsing stay at the edge; this module turns
//! the parsed sections into a configuration value and decides where a
//! password comes from.

use vstd::prelude::*;

use crate::strutil::split_at_first;
use crate::strutil::split_once_at;
use crate::strutil::str_eq;
use crate::urls::normalize_url;
use crate::urls::url_normalized;

verus! {

/// The backends that can hold a password.
#[derive(Debug, Clone, Copy, PartialEq, Eq, Structural)]
pub enum CredentialsManagers {
    Transient,
    Plaintext,
    KernelKeyring,
    SecretService,
    Kwallet,
}

impl Default for CredentialsManagers {
    fn default() -> (r: Self)
        ensures
            r == CredentialsManagers::Plaintext,
    {
        CredentialsManagers::Plaintext
    }
}

/// The backend a configured credentials-manager class name selects;
/// every unknown class falls back to the plain-text backend.
pub open spec fn credentials_manager_of(s: Seq<char>) -> CredentialsManagers {
    if s == "osc.credentials.TransientCredentialsManager"@ {
        CredentialsManagers::Transient
    } else if s == "osc.credentials.KeyringCredentialsManager:keyring.backends.kwallet.DBusKeyring"@ {
        CredentialsManagers::Kwallet
    } else if s == "osc.credentials.KeyringCredentialsManager:keyutils.osc.OscKernelKeyringBackend"@ {
        CredentialsManagers::KernelKeyring
    } else if s == "osc.credentials.KeyringCredentialsManager:keyring.backends.SecretService.Keyring"@ {
        CredentialsManagers::SecretService
    } else {
        CredentialsManagers::Plaintext
    }
}

impl From<String> for CredentialsManagers {
    fn from(value: String) -> (r: Self) {
        if str_eq(value.as_str(), "osc.credentials.TransientCredentialsManager") {
            CredentialsManagers::Transient
        } else if str_eq(
            value.as_str(),
            "osc.credentials.KeyringCredentialsManager:keyring.backends.kwallet.DBusKeyring",
        ) {
            CredentialsManagers::Kwallet
        } else if str_eq(
            value.as_str(),
            "osc.credentials.KeyringCredentialsManager:keyutils.osc.OscKernelKeyringBackend",
        ) {
            CredentialsManagers::KernelKeyring
        } else if str_eq(
            value.as_str(),
            "osc.credentials.KeyringCredentialsManager:keyring.backends.SecretService.Keyring",
        ) {
            CredentialsManagers::SecretService
        } else {
            CredentialsManagers::Plaintext
        }
    }
}

impl vstd::std_specs::convert::FromSpecImpl<String> for CredentialsManagers {
    open spec fn obeys_from_spec() -> bool {
        true
    }

    open spec fn from_spec(v: String) -> Self {
        credentials_manager_of(v@)
    }
}

/// Where a password for a host comes from.
#[derive(Debug)]
pub enum PasswordSource {
    /// The configured plain-text password, or the empty string when
    /// none is configured.
    Plain(String),
    /// Ask interactively.
    Ask,
    /// Read from the desktop wallet.
    Kwallet,
}

/// The options configured for one service endpoint.
#[derive(Debug)]
pub struct HostOptions {
    pub aliases: Vec<String>,
    pub username: String,
    pub credential_class: CredentialsManagers,
    pub password: Option<String>,
    pub sshkey: Option<String>,
    pub cafile: Option<String>,
    pub capath: Option<String>,
    pub http_headers: Vec<(String, String)>,
    pub realname: Option<String>,
    pub email: Option<String>,
}

/// A failure to make sense of the configuration.
#[derive(Debug)]
pub enum ParseError {
    XDGError(String),
    FieldError { section: String, field: String, error: String },
    URLParseError,
    FileError(String),
}

/// One parsed section of the configuration file, its entries in file
/// order with lower-cased keys.
#[derive(Debug)]
pub struct ConfigSection {
    pub name: String,
    pub entries: Vec<(String, String)>,
}

/// The value a key holds in a section; with repeated keys the last
/// entry wins.
pub open spec fn config_value(
    entries: Seq<(Seq<char>, Seq<char>)>,
    key: Seq<char>,
) -> Option<Seq<char>>
    decreases entries.len(),
{
    if entries.len() == 0 {
        None
    } else if entries.last().0 == key {
        Some(entries.last().1)
    } else {
        config_value(entries.drop_last(), key)
    }
}

/// The view of a section's entry list.
pub open spec fn entries_view(entries: Seq<(String, String)>) -> Seq<(Seq<char>, Seq<char>)> {
    entries.map_values(|pr: (String, String)| (pr.0@, pr.1@))
}

/// Looks a key up in a section's entries, last entry first.
pub fn config_get<'a>(entries: &'a Vec<(String, String)>, key: &str) -> (r: Option<&'a String>)
    ensures
        match r {
            Some(v) => config_value(entries_view(entries@), key@) == Some(v@),
            None => config_value(entries_view(entries@), key@) is None,
        },
{
    let mut i: usize = entries.len();
    proof {
        assert(entries_view(entries@).take(entries@.len() as int) =~= entries_view(entries@));
    }
    while i > 0
        invariant
            0 <= i <= entries@.len(),
            config_value(entries_view(entries@), key@) == config_value(
                entries_view(entries@).take(i as int),
                key@,
            ),
        decreases i,
    {
        proof {
            assert(entries_view(entries@).take(i as int).last() == (
                entries@[i - 1].0@,
                entries@[i - 1].1@,
            ));
            assert(entries_view(entries@).take(i as int).drop_last() =~= entries_view(
                entries@,
            ).take(i - 1));
        }
        if str_eq(entries[i - 1].0.as_str(), key) {
            return Some(&entries[i - 1].1);
        }
        i = i - 1;
    }
    proof {
        assert(entries_view(entries@).take(0) =~= Seq::<(Seq<char>, Seq<char>)>::empty());
    }
    None
}

/// Whether a string is one or more decimal digits.
pub open spec fn all_digits(s: Seq<char>) -> bool {
    s.len() > 0 && forall|i: int| 0 <= i < s.len() ==> '0' <= #[trigger] s[i] <= '9'
}

/// The value of a digit string.
pub open spec fn decimal_value(s: Seq<char>) -> int
    decreases s.len(),
{
    if s.len() == 0 {
        0
    } else {
        decimal_value(s.drop_last()) * 10 + (s.last() as int - '0' as int)
    }
}

pub open spec fn pow10(k: nat) -> int
    decreases k,
{
    if k == 0 {
        1
    } else {
        10 * pow10((k - 1) as nat)
    }
}

proof fn lemma_pow10_19()
    ensures
        pow10(19) == 0x8AC7230489E80000,
{
    assert(pow10(0) == 1);
    assert(pow10(1) == 10);
    assert(pow10(2) == 100);
    assert(pow10(3) == 1000);
    assert(pow10(4) == 10000);
    assert(pow10(5) == 100000);
    assert(pow10(6) == 1000000);
    assert(pow10(7) == 10000000);
    assert(pow10(8) == 100000000);
    assert(pow10(9) == 1000000000);
    assert(pow10(10) == 10000000000);
    assert(pow10(11) == 100000000000);
    assert(pow10(12) == 1000000000000);
    assert(pow10(13) == 10000000000000);
    assert(pow10(14) == 100000000000000);
    assert(pow10(15) == 1000000000000000);
    assert(pow10(16) == 10000000000000000);
    assert(pow10(17) == 100000000000000000);
    assert(pow10(18) == 1000000000000000000);
    assert(pow10(19) == 10000000000000000000);
}

proof fn lemma_decimal_digits_bound(s: Seq<char>, k: int)
    requires
        forall|i: int| 0 <= i < s.len() ==> '0' <= #[trigger] s[i] <= '9',
        s.len() <= k,
        0 <= k,
    ensures
        0 <= decimal_value(s) < pow10(k as nat),
    decreases k,
{
    if s.len() == 0 {
        lemma_pow10_positive(k as nat);
    } else {
        assert forall|i: int| 0 <= i < s.len() - 1 implies '0' <= #[trigger] s.drop_last()[i]
            <= '9' by {
            assert(s.drop_last()[i] == s[i]);
        }
        lemma_decimal_digits_bound(s.drop_last(), k - 1);
        let prev = decimal_value(s.drop_last());
        let p = pow10((k - 1) as nat);
        assert(pow10(k as nat) == 10 * p);
        assert(prev * 10 + 9 < 10 * p) by (nonlinear_arith)
            requires
                prev < p,
                0 <= prev,
                0 < p,
        ;
        assert(0 <= s.last() as int - '0' as int <= 9);
    }
}

proof fn lemma_pow10_positive(k: nat)
    ensures
        0 < pow10(k),
    decreases k,
{
    if k > 0 {
        lemma_pow10_positive((k - 1) as nat);
    }
}

proof fn lemma_decimal_value_bound(s: Seq<char>)
    requires
        forall|i: int| 0 <= i < s.len() ==> '0' <= #[trigger] s[i] <= '9',
    ensures
        0 <= decimal_value(s),
        s.len() <= 19 ==> decimal_value(s) < 0x8AC7230489E80000,
{
    lemma_decimal_digits_bound(s, s.len() as int);
    lemma_pow10_positive(s.len() as nat);
    if s.len() <= 19 {
        lemma_decimal_digits_bound(s, 19);
        lemma_pow10_19();
    }
}

/// Parses a decimal number of at most nineteen digits; anything else,
/// including the empty string, gives nothing.
pub fn parse_u64(s: &str) -> (r: Option<u64>)
    ensures
        match r {
            Some(v) => all_digits(s@) && s@.len() <= 19 && v as int == decimal_value(s@),
            None => !(all_digits(s@) && s@.len() <= 19),
        },
{
    let len = s.unicode_len();
    if len == 0 || len > 19 {
        return None;
    }
    let mut value: u64 = 0;
    let mut i: usize = 0;
    proof {
        assert(s@.take(0) =~= Seq::<char>::empty());
    }
    while i < len
        invariant
            len == s@.len(),
            0 < len <= 19,
            0 <= i <= len,
            forall|j: int| 0 <= j < i ==> '0' <= #[trigger] s@[j] <= '9',
            value as int == decimal_value(s@.take(i as int)),
        decreases len - i,
    {
        let c = s.get_char(i);
        let code = c as u32;
        if code < 48 || code > 57 {
            proof {
                assert(!('0' <= s@[i as int] <= '9'));
            }
            return None;
        }
        proof {
            assert forall|j: int| 0 <= j < i + 1 implies '0' <= #[trigger] s@[j] <= '9' by {}
            assert(s@.take(i + 1).drop_last() =~= s@.take(i as int));
            assert(s@.take(i + 1).last() == s@[i as int]);
            assert forall|j: int| 0 <= j < s@.take(i + 1).len() implies '0'
                <= #[trigger] s@.take(i + 1)[j] <= '9' by {
                assert(s@.take(i + 1)[j] == s@[j]);
            }
            lemma_decimal_value_bound(s@.take(i + 1));
        }
        let digit = (code - 48) as u64;
        value = value * 10 + digit;
        i = i + 1;
    }
    proof {
        assert(s@.take(len as int) =~= s@);
    }
    Some(value)
}

/// The header pairs a raw header block yields: one pair per line that
/// holds a colon, split at the first colon.
pub open spec fn header_pairs(s: Seq<char>) -> Seq<(Seq<char>, Seq<char>)>
    decreases s.len(),
{
    match crate::strutil::first_index_of(s, '\n') {
        None => line_pair(s),
        Some(i) => if 0 <= i < s.len() {
            line_pair(s.subrange(0, i)) + header_pairs(s.subrange(i + 1, s.len() as int))
        } else {
            Seq::empty()
        },
    }
}

/// The pair one line yields: its parts around the first colon, or
/// nothing for a line without one.
pub open spec fn line_pair(l: Seq<char>) -> Seq<(Seq<char>, Seq<char>)> {
    match split_at_first(l, ':') {
        None => Seq::empty(),
        Some(parts) => Seq::empty().push((parts.0, parts.1)),
    }
}

/// Splits a raw header block into (name, value) pairs, line by line.
/// Which pairs name valid headers is for the transport layer to
/// decide.
pub fn parse_header_lines(input: &str) -> (r: Vec<(String, String)>)
    ensures
        entries_view(r@) == header_pairs(input@),
    decreases input@.len(),
{
    proof {
        crate::strutil::lemma_first_index_of(input@, '\n');
    }
    match split_once_at(input, '\n') {
        None => {
            let mut r: Vec<(String, String)> = Vec::new();
            match split_once_at(input, ':') {
                None => {
                    proof {
                        assert(entries_view(r@) =~= header_pairs(input@));
                    }
                },
                Some((k, v)) => {
                    r.push((k, v));
                    proof {
                        assert(entries_view(r@) =~= header_pairs(input@));
                    }
                },
            }
            r
        },
        Some((line, rest)) => {
            let mut r: Vec<(String, String)> = Vec::new();
            match split_once_at(line.as_str(), ':') {
                None => {},
                Some((k, v)) => {
                    r.push((k, v));
                },
            }
            let ghost head = r@;
            let mut tail = parse_header_lines(rest.as_str());
            r.append(&mut tail);
            proof {
                assert(entries_view(r@) =~= entries_view(head) + entries_view(
                    r@.skip(head.len() as int),
                ));
                assert(r@.skip(head.len() as int) =~= r@.subrange(head.len() as int, r@.len() as int));
                assert(entries_view(head) =~= line_pair(line@));
                assert(entries_view(r@.skip(head.len() as int)) =~= header_pairs(rest@));
            }
            r
        },
    }
}


/// The configuration of the command-line clients: the default service
/// endpoint and its options per endpoint.
#[derive(Debug)]
pub struct Oscrc {
    pub hosts_options: Vec<(String, HostOptions)>,
    pub apiurl: String,
    pub sshkey: Option<String>,
    pub http_retries: u64,
    pub cookiejar: String,
    pub realname: Option<String>,
    pub email: Option<String>,
}

/// The endpoint used when the configuration names none.
pub open spec fn default_apiurl() -> Seq<char> {
    match url_normalized("https://api.opensuse.org"@) {
        Some(u) => u,
        None => "https://api.opensuse.org"@,
    }
}

/// What the options of one host must hold, given its parsed section.
pub open spec fn host_options_ok(h: HostOptions, sec: ConfigSection) -> bool {
    let e = entries_view(sec.entries@);
    &&& h.aliases@.len() == 0
    &&& Some(h.username@) == config_value(e, "user"@)
    &&& h.credential_class == credentials_manager_of(
        match config_value(e, "credentials_mgr_class"@) {
            Some(v) => v,
            None => ""@,
        },
    )
    &&& h.password.deep_view() == config_value(e, "password"@)
    &&& h.sshkey.deep_view() == config_value(e, "sshkey"@)
    &&& h.cafile.deep_view() == config_value(e, "cafile"@)
    &&& h.capath.deep_view() == config_value(e, "capath"@)
    &&& entries_view(h.http_headers@) == header_pairs(
        match config_value(e, "http_headers"@) {
            Some(v) => v,
            None => ""@,
        },
    )
    &&& h.realname.deep_view() == config_value(e, "realname"@)
    &&& h.email.deep_view() == config_value(e, "email"@)
}

impl Oscrc {
    /// Builds the configuration from the parsed general section and
    /// the per-host sections, with defaults for everything the file
    /// does not set.  The cookie-jar fallback is the state-directory
    /// path the caller derived.
    #[verifier::loop_isolation(false)]
    pub fn from_config(
        general: &Vec<(String, String)>,
        sections: &Vec<ConfigSection>,
        fallback_cookiejar: String,
    ) -> (r: Result<Oscrc, ParseError>)
        ensures
            match r {
                Ok(cfg) => {
                    &&& cfg.apiurl@ == (match config_value(entries_view(general@), "apiurl"@) {
                        Some(u) => (match url_normalized(u) {
                            Some(n) => n,
                            None => u,
                        }),
                        None => default_apiurl(),
                    })
                    &&& cfg.sshkey.deep_view() == config_value(
                        entries_view(general@),
                        "sshkey"@,
                    )
                    &&& cfg.http_retries as int == (match config_value(
                        entries_view(general@),
                        "http_retries"@,
                    ) {
                        Some(v) => decimal_value(v),
                        None => 3,
                    })
                    &&& cfg.cookiejar@ == (match config_value(
                        entries_view(general@),
                        "cookiejar"@,
                    ) {
                        Some(v) => v,
                        None => fallback_cookiejar@,
                    })
                    &&& cfg.realname.deep_view() == config_value(
                        entries_view(general@),
                        "realname"@,
                    )
                    &&& cfg.email.deep_view() == config_value(entries_view(general@), "email"@)
                    &&& cfg.hosts_options@.len() == sections@.len()
                    &&& forall|i: int|
                        0 <= i < sections@.len() ==> Some(
                            (#[trigger] cfg.hosts_options@[i]).0@,
                        ) == url_normalized(sections@[i].name@) && host_options_ok(
                            cfg.hosts_options@[i].1,
                            sections@[i],
                        )
                },
                Err(e) => match e {
                    ParseError::URLParseError => (match config_value(
                        entries_view(general@),
                        "apiurl"@,
                    ) {
                        Some(u) => url_normalized(u) is None,
                        None => false,
                    }) || exists|i: int|
                        0 <= i < sections@.len() && url_normalized(
                            (#[trigger] sections@[i]).name@,
                        ) is None,
                    ParseError::FieldError { section, field, error } => (field@
                        == "http_retries"@ && match config_value(
                        entries_view(general@),
                        "http_retries"@,
                    ) {
                        Some(v) => !(all_digits(v) && v.len() <= 19),
                        None => false,
                    }) || (field@ == "user"@ && exists|i: int|
                        0 <= i < sections@.len() && (#[trigger] sections@[i]).name@ == section@
                            && config_value(
                            entries_view(sections@[i].entries@),
                            "user"@,
                        ) is None),
                    ParseError::XDGError(_) => false,
                    ParseError::FileError(_) => false,
                },
            },
    {
        let apiurl = match config_get(general, "apiurl") {
            Some(u) => match normalize_url(u.as_str()) {
                Some(n) => n,
                None => {
                    return Err(ParseError::URLParseError);
                },
            },
            None => match normalize_url("https://api.opensuse.org") {
                Some(n) => n,
                None => String::from_str("https://api.opensuse.org"),
            },
        };
        let sshkey = match config_get(general, "sshkey") {
            Some(v) => Some(v.clone()),
            None => None,
        };
        let http_retries = match config_get(general, "http_retries") {
            Some(v) => match crate::oscrc::parse_u64(v.as_str()) {
                Some(n) => n,
                None => {
                    return Err(
                        ParseError::FieldError {
                            section: String::from_str("general"),
                            field: String::from_str("http_retries"),
                            error: String::from_str("not a number"),
                        },
                    );
                },
            },
            None => 3,
        };
        let cookiejar = match config_get(general, "cookiejar") {
            Some(v) => v.clone(),
            None => fallback_cookiejar,
        };
        let realname = match config_get(general, "realname") {
            Some(v) => Some(v.clone()),
            None => None,
        };
        let email = match config_get(general, "email") {
            Some(v) => Some(v.clone()),
            None => None,
        };
        let mut hosts_options: Vec<(String, HostOptions)> = Vec::new();
        let mut i: usize = 0;
        while i < sections.len()
            invariant
                0 <= i <= sections@.len(),
                hosts_options@.len() == i,
                forall|j: int|
                    0 <= j < i ==> Some((#[trigger] hosts_options@[j]).0@) == url_normalized(
                        sections@[j].name@,
                    ) && host_options_ok(hosts_options@[j].1, sections@[j]),
            decreases sections@.len() - i,
        {
            let sec = &sections[i];
            let key = match normalize_url(sec.name.as_str()) {
                Some(n) => n,
                None => {
                    return Err(ParseError::URLParseError);
                },
            };
            let username = match config_get(&sec.entries, "user") {
                Some(v) => v.clone(),
                None => {
                    return Err(
                        ParseError::FieldError {
                            section: sec.name.clone(),
                            field: String::from_str("user"),
                            error: String::from_str("Not found"),
                        },
                    );
                },
            };
            let credential_class = match config_get(&sec.entries, "credentials_mgr_class") {
                Some(v) => CredentialsManagers::from(v.clone()),
                None => CredentialsManagers::from(String::new()),
            };
            let password = match config_get(&sec.entries, "password") {
                Some(v) => Some(v.clone()),
                None => None,
            };
            let host_sshkey = match config_get(&sec.entries, "sshkey") {
                Some(v) => Some(v.clone()),
                None => None,
            };
            let cafile = match config_get(&sec.entries, "cafile") {
                Some(v) => Some(v.clone()),
                None => None,
            };
            let capath = match config_get(&sec.entries, "capath") {
                Some(v) => Some(v.clone()),
                None => None,
            };
            let http_headers = match config_get(&sec.entries, "http_headers") {
                Some(v) => parse_header_lines(v.as_str()),
                None => parse_header_lines(""),
            };
            let host_realname = match config_get(&sec.entries, "realname") {
                Some(v) => Some(v.clone()),
                None => None,
            };
            let host_email = match config_get(&sec.entries, "email") {
                Some(v) => Some(v.clone()),
                None => None,
            };
            let options = HostOptions {
                aliases: Vec::new(),
                username,
                credential_class,
                password,
                sshkey: host_sshkey,
                cafile,
                capath,
                http_headers,
                realname: host_realname,
                email: host_email,
            };
            proof {
                reveal_strlit("");
                assert(""@ =~= Seq::<char>::empty());
                assert(host_options_ok(options, *sec));
            }
            let ghost vec_before = hosts_options@;
            hosts_options.push((key, options));
            proof {
                assert(forall|m: int|
                    0 <= m < vec_before.len() ==> hosts_options@[m] == #[trigger] vec_before[m]);
            }
            i = i + 1;
        }
        Ok(
            Oscrc {
                hosts_options,
                apiurl,
                sshkey,
                http_retries,
                cookiejar,
                realname,
                email,
            },
        )
    }

    /// Resolves an alias to a configured endpoint: a valid URL is
    /// looked up among the configured hosts as it is, anything else is
    /// matched against the hosts' alias lists.
    pub fn apiurl_from_alias(&self, alias: &str) -> (r: Option<String>)
        ensures
            match url_normalized(alias@) {
                Some(u) => (match r {
                    Some(got) => got@ == u && exists|i: int|
                        0 <= i < self.hosts_options@.len()
                            && (#[trigger] self.hosts_options@[i]).0@ == u,
                    None => forall|i: int|
                        0 <= i < self.hosts_options@.len()
                            ==> (#[trigger] self.hosts_options@[i]).0@ != u,
                }),
                None => (match r {
                    Some(got) => exists|i: int|
                        0 <= i < self.hosts_options@.len()
                            && (#[trigger] self.hosts_options@[i]).0@ == got@
                            && crate::strutil::seq_contains_string(
                            self.hosts_options@[i].1.aliases.deep_view(),
                            alias@,
                        ),
                    None => forall|i: int|
                        0 <= i < self.hosts_options@.len()
                            ==> !crate::strutil::seq_contains_string(
                            (#[trigger] self.hosts_options@[i]).1.aliases.deep_view(),
                            alias@,
                        ),
                }),
            },
    {
        match normalize_url(alias) {
            Some(u) => {
                proof {
                    assert(url_normalized(alias@) == Some(u@));
                }
                let mut i: usize = 0;
                while i < self.hosts_options.len()
                    invariant
                        url_normalized(alias@) == Some(u@),
                        0 <= i <= self.hosts_options@.len(),
                        forall|j: int|
                            0 <= j < i ==> (#[trigger] self.hosts_options@[j]).0@ != u@,
                    decreases self.hosts_options@.len() - i,
                {
                    if str_eq(self.hosts_options[i].0.as_str(), u.as_str()) {
                        proof {
                            assert((#[trigger] self.hosts_options@[i as int]).0@ == u@);
                        }
                        return Some(u);
                    }
                    i = i + 1;
                }
                None
            },
            None => {
                proof {
                    assert(url_normalized(alias@) is None);
                }
                let mut i: usize = 0;
                while i < self.hosts_options.len()
                    invariant
                        url_normalized(alias@) is None,
                        0 <= i <= self.hosts_options@.len(),
                        forall|j: int|
                            0 <= j < i ==> !crate::strutil::seq_contains_string(
                                (#[trigger] self.hosts_options@[j]).1.aliases.deep_view(),
                                alias@,
                            ),
                    decreases self.hosts_options@.len() - i,
                {
                    if crate::strutil::vec_contains_string(
                        &self.hosts_options[i].1.aliases,
                        alias,
                    ) {
                        let got = self.hosts_options[i].0.clone();
                        proof {
                            assert((#[trigger] self.hosts_options@[i as int]).0@ == got@
                                && crate::strutil::seq_contains_string(
                                self.hosts_options@[i as int].1.aliases.deep_view(),
                                alias@,
                            ));
                        }
                        return Some(got);
                    }
                    i = i + 1;
                }
                None
            },
        }
    }

    /// Decides where the password for an endpoint comes from: the
    /// configured plain-text password for the plain backend, the
    /// desktop wallet for that backend, and an interactive prompt for
    /// every backend that is not carried here.  An endpoint without
    /// configured options yields nothing.
    pub fn get_password_provider(&self, api_url: &str) -> (r: Option<PasswordSource>)
        ensures
            match r {
                Some(src) => exists|i: int|
                    0 <= i < self.hosts_options@.len()
                        && (#[trigger] self.hosts_options@[i]).0@ == api_url@ && (match src {
                        PasswordSource::Plain(p) => self.hosts_options@[i].1.credential_class
                            == CredentialsManagers::Plaintext && p@ == (
                        match self.hosts_options@[i].1.password {
                            Some(v) => v@,
                            None => Seq::empty(),
                        }),
                        PasswordSource::Ask => self.hosts_options@[i].1.credential_class
                            != CredentialsManagers::Plaintext
                            && self.hosts_options@[i].1.credential_class
                            != CredentialsManagers::Kwallet,
                        PasswordSource::Kwallet => self.hosts_options@[i].1.credential_class
                            == CredentialsManagers::Kwallet,
                    }),
                None => forall|i: int|
                    0 <= i < self.hosts_options@.len()
                        ==> (#[trigger] self.hosts_options@[i]).0@ != api_url@,
            },
    {
        let mut i: usize = 0;
        while i < self.hosts_options.len()
            invariant
                0 <= i <= self.hosts_options@.len(),
                forall|j: int| 0 <= j < i ==> (#[trigger] self.hosts_options@[j]).0@ != api_url@,
            decreases self.hosts_options@.len() - i,
        {
            if str_eq(self.hosts_options[i].0.as_str(), api_url) {
                let host = &self.hosts_options[i].1;
                let src = match host.credential_class {
                    CredentialsManagers::Plaintext => PasswordSource::Plain(
                        match &host.password {
                            Some(p) => p.clone(),
                            None => String::new(),
                        },
                    ),
                    CredentialsManagers::Kwallet => PasswordSource::Kwallet,
                    CredentialsManagers::Transient => PasswordSource::Ask,
                    CredentialsManagers::KernelKeyring => PasswordSource::Ask,
                    CredentialsManagers::SecretService => PasswordSource::Ask,
                };
                return Some(src);
            }
            i = i + 1;
        }
        None
    }
}

} // verus!
