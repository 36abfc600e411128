//! Settings.

use crate::error::{failure, ErrorView, TickError};
use crate::text::{
    blank, concat2, decimal, digit, is_blank, lemma_decimal_reads_back, lemma_nothing_to_trim,
    lemma_trim, lemma_trim_end_char, lemma_written_number_is_read, number, opt_text, read_number,
    trim, trim_end_char, trimmed, white, without_trailing,
};
use vstd::prelude::*;

verus! {

/// Where the API key comes from.
#[derive(Debug, Clone, Copy, PartialEq, Eq, Structural)]
pub enum ApiKeySource {
    Environment,
    CredentialStore,
}

/// The settings of the tool.
#[derive(Debug)]
pub struct Config {
    pub base_url: String,
    pub api_key: Option<String>,
    pub api_key_source: Option<ApiKeySource>,
    pub root: String,
    pub concurrency: usize,
    pub timeout_secs: u64,
}

/// The settings of the tool.
pub struct ConfigView {
    pub base_url: Seq<char>,
    pub api_key: Option<Seq<char>>,
    pub api_key_source: Option<ApiKeySource>,
    pub root: Seq<char>,
    pub concurrency: nat,
    pub timeout_secs: nat,
}

impl View for Config {
    type V = ConfigView;

    open spec fn view(&self) -> ConfigView {
        ConfigView {
            base_url: self.base_url@,
            api_key: opt_text(self.api_key),
            api_key_source: self.api_key_source,
            root: self.root@,
            concurrency: self.concurrency as nat,
            timeout_secs: self.timeout_secs as nat,
        }
    }
}

/// The variables that the settings are made of.
#[derive(Debug)]
pub struct ConfigValues {
    pub base_url: Option<String>,
    pub api_key: Option<String>,
    pub root: Option<String>,
    pub legacy_root: Option<String>,
    pub concurrency: Option<String>,
    pub legacy_concurrency: Option<String>,
    pub timeout_secs: Option<String>,
    pub legacy_timeout_secs: Option<String>,
}

// ---------------------------------------------------------------------------
// Models
// ---------------------------------------------------------------------------

/// The address of the server: as given, without white space around it and slashes at its end.
pub open spec fn base_url_of(value: Option<Seq<char>>) -> Seq<char> {
    match value {
        Some(text) => {
            let url = trim_end_char(trim(text), '/');
            if url.len() > 0 {
                url
            } else {
                "https://api.polaris.supply"@
            }
        },
        None => "https://api.polaris.supply"@,
    }
}

/// A key without white space around it, where anything is left.
pub open spec fn key_of(value: Option<Seq<char>>) -> Option<Seq<char>> {
    match value {
        Some(text) => if blank(text) {
            None
        } else {
            Some(trim(text))
        },
        None => None,
    }
}

/// The root: as given, under the new name or the old one, or the default.
pub open spec fn root_of(
    value: Option<Seq<char>>,
    legacy: Option<Seq<char>>,
    default_root: Option<Seq<char>>,
) -> Option<Seq<char>> {
    if value is Some && !blank(value->0) {
        value
    } else if legacy is Some && !blank(legacy->0) {
        legacy
    } else {
        default_root
    }
}

/// A number above zero, read from the variable `name`, or what is wrong with it.
pub open spec fn positive(value: Option<Seq<char>>, default: nat, max: nat, name: Seq<char>) -> Result<
    nat,
    ErrorView,
> {
    match value {
        None => Ok(default),
        Some(text) => match number(trim(text), max) {
            None => Err(ErrorView::Other("failed to parse "@ + name)),
            Some(n) => if n == 0 {
                Err(ErrorView::InvalidArgument(name + " must be greater than zero"@))
            } else {
                Ok(n)
            },
        },
    }
}

/// A number above zero, read from the variable with the new name or else from that with the old
/// one.
pub open spec fn positive_of(
    value: Option<Seq<char>>,
    name: Seq<char>,
    legacy: Option<Seq<char>>,
    legacy_name: Seq<char>,
    default: nat,
    max: nat,
) -> Result<nat, ErrorView> {
    if value is Some {
        positive(value, default, max, name)
    } else {
        positive(legacy, default, max, legacy_name)
    }
}

/// The settings that the variables make, or what is wrong with them.
pub open spec fn config_of(
    values: ConfigValues,
    default_root: Option<Seq<char>>,
    stored_key: Option<Seq<char>>,
) -> Result<ConfigView, ErrorView> {
    let env_key = key_of(opt_text(values.api_key));
    let root = root_of(opt_text(values.root), opt_text(values.legacy_root), default_root);
    let concurrency = positive_of(
        opt_text(values.concurrency),
        "POLARIS_CONCURRENCY"@,
        opt_text(values.legacy_concurrency),
        "TICK_CONCURRENCY"@,
        4,
        usize::MAX as nat,
    );
    let timeout = positive_of(
        opt_text(values.timeout_secs),
        "POLARIS_TIMEOUT_SECS"@,
        opt_text(values.legacy_timeout_secs),
        "TICK_TIMEOUT_SECS"@,
        60,
        u64::MAX as nat,
    );
    if root is None {
        Err(ErrorView::Other("unable to determine platform data directory"@))
    } else if concurrency is Err {
        Err(concurrency->Err_0)
    } else if timeout is Err {
        Err(timeout->Err_0)
    } else {
        Ok(
            ConfigView {
                base_url: base_url_of(opt_text(values.base_url)),
                api_key: if env_key is Some {
                    env_key
                } else {
                    stored_key
                },
                api_key_source: if env_key is Some {
                    Some(ApiKeySource::Environment)
                } else if stored_key is Some {
                    Some(ApiKeySource::CredentialStore)
                } else {
                    None
                },
                root: root->0,
                concurrency: concurrency->Ok_0,
                timeout_secs: timeout->Ok_0,
            },
        )
    }
}

// ---------------------------------------------------------------------------
// Functions
// ---------------------------------------------------------------------------

/// The address of the server.
fn read_base_url(value: Option<String>) -> (out: String)
    ensures
        out@ == base_url_of(opt_text(value)),
{
    if let Some(text) = value {
        let url = trimmed(text.as_str());
        let url = without_trailing(url.as_str(), '/');
        if url.as_str().unicode_len() > 0 {
            return url;
        }
    }
    "https://api.polaris.supply".to_owned()
}

/// A key without white space around it, where anything is left.
pub fn read_key(value: Option<String>) -> (out: Option<String>)
    ensures
        opt_text(out) == key_of(opt_text(value)),
{
    match value {
        Some(text) => {
            let key = trimmed(text.as_str());
            if key.as_str().unicode_len() == 0 {
                None
            } else {
                Some(key)
            }
        },
        None => None,
    }
}

/// The text, where there is more in it than white space.
fn not_blank(value: Option<String>) -> (out: Option<String>)
    ensures
        value is Some && !blank(value->0@) ==> opt_text(out) == opt_text(value),
        !(value is Some && !blank(value->0@)) ==> out is None,
{
    match value {
        Some(text) => if is_blank(text.as_str()) {
            None
        } else {
            Some(text)
        },
        None => None,
    }
}

/// A number above zero, read from the variable `name`.
fn parse_positive(value: Option<String>, default: u64, max: u64, name: &str) -> (out: Result<
    u64,
    TickError,
>)
    requires
        default <= max,
    ensures
        match positive(opt_text(value), default as nat, max as nat, name@) {
            Ok(n) => out matches Ok(v) && v == n && v <= max,
            Err(error) => failure(out) == Some(error),
        },
{
    match value {
        None => Ok(default),
        Some(text) => {
            let digits = trimmed(text.as_str());
            match read_number(digits.as_str(), max) {
                None => Err(TickError::Other(concat2("failed to parse ", name))),
                Some(n) => if n == 0 {
                    Err(TickError::invalid(name, " must be greater than zero"))
                } else {
                    Ok(n)
                },
            }
        },
    }
}

/// A number above zero, read from the variable with the new name or else from that with the old one.
fn parse_either(
    value: Option<String>,
    name: &str,
    legacy: Option<String>,
    legacy_name: &str,
    default: u64,
    max: u64,
) -> (out: Result<u64, TickError>)
    requires
        default <= max,
    ensures
        match positive_of(
            opt_text(value),
            name@,
            opt_text(legacy),
            legacy_name@,
            default as nat,
            max as nat,
        ) {
            Ok(n) => out matches Ok(v) && v == n && v <= max,
            Err(error) => failure(out) == Some(error),
        },
{
    if value.is_some() {
        parse_positive(value, default, max, name)
    } else {
        parse_positive(legacy, default, max, legacy_name)
    }
}

/// Where data is kept when the user names no place: the platform's data directory of the tool. While
/// that does not exist, the one under the tool's old name is kept where it exists.
pub fn default_root(
    primary: Option<String>,
    primary_exists: bool,
    legacy: Option<String>,
    legacy_exists: bool,
) -> (out: Result<String, TickError>)
    ensures
        primary is None ==> failure(out) == Some(
            ErrorView::Other("unable to determine platform data directory"@),
        ),
        primary is Some && !primary_exists && legacy is Some && legacy_exists ==> (out matches Ok(
            root,
        ) && root@ == legacy->0@),
        primary is Some && !(!primary_exists && legacy is Some && legacy_exists) ==> (
        out matches Ok(root) && root@ == primary->0@),
{
    match primary {
        None => Err(TickError::Other("unable to determine platform data directory".to_owned())),
        Some(root) => {
            if !primary_exists && legacy_exists {
                if let Some(old) = legacy {
                    return Ok(old);
                }
            }
            Ok(root)
        },
    }
}

impl Config {
    /// The settings that the variables make. A key in the environment goes before a stored one.
    pub fn from_values(
        values: ConfigValues,
        default_root: Option<String>,
        stored_api_key: Option<String>,
    ) -> (out: Result<Config, TickError>)
        ensures
            match config_of(values, opt_text(default_root), opt_text(stored_api_key)) {
                Ok(view) => out matches Ok(config) && config@ == view,
                Err(error) => failure(out) == Some(error),
            },
    {
        let base_url = read_base_url(values.base_url);
        let env_key = read_key(values.api_key);
        let root = match not_blank(values.root) {
            Some(root) => Some(root),
            None => match not_blank(values.legacy_root) {
                Some(root) => Some(root),
                None => default_root,
            },
        };
        let root = match root {
            Some(root) => root,
            None => {
                return Err(
                    TickError::Other("unable to determine platform data directory".to_owned()),
                );
            },
        };
        let concurrency: usize = match parse_either(
            values.concurrency,
            "POLARIS_CONCURRENCY",
            values.legacy_concurrency,
            "TICK_CONCURRENCY",
            4,
            usize::MAX as u64,
        ) {
            Ok(n) => n as usize,
            Err(error) => {
                return Err(error);
            },
        };
        let timeout_secs: u64 = match parse_either(
            values.timeout_secs,
            "POLARIS_TIMEOUT_SECS",
            values.legacy_timeout_secs,
            "TICK_TIMEOUT_SECS",
            60,
            u64::MAX,
        ) {
            Ok(n) => n,
            Err(error) => {
                return Err(error);
            },
        };
        let api_key_source = if env_key.is_some() {
            Some(ApiKeySource::Environment)
        } else if stored_api_key.is_some() {
            Some(ApiKeySource::CredentialStore)
        } else {
            None
        };
        let api_key = if env_key.is_some() {
            env_key
        } else {
            stored_api_key
        };
        Ok(Config { base_url, api_key, api_key_source, root, concurrency, timeout_secs })
    }

    /// The settings that the variables make which `reader` knows.
    pub fn from_reader<F: FnMut(&str) -> Option<String>>(
        mut reader: F,
        default_root: Option<String>,
        stored_api_key: Option<String>,
    ) -> (out: Result<Config, TickError>)
        requires
            forall|name: &str| call_requires(reader, (name,)),
        ensures
            exists|values: ConfigValues|
                {
                    &&& call_ensures(reader, ("POLARIS_BASE_URL",), values.base_url)
                    &&& call_ensures(reader, ("POLARIS_API_KEY",), values.api_key)
                    &&& call_ensures(reader, ("POLARIS_ROOT",), values.root)
                    &&& call_ensures(reader, ("TICK_ROOT",), values.legacy_root)
                    &&& call_ensures(reader, ("POLARIS_CONCURRENCY",), values.concurrency)
                    &&& call_ensures(reader, ("TICK_CONCURRENCY",), values.legacy_concurrency)
                    &&& call_ensures(reader, ("POLARIS_TIMEOUT_SECS",), values.timeout_secs)
                    &&& call_ensures(reader, ("TICK_TIMEOUT_SECS",), values.legacy_timeout_secs)
                    &&& match #[trigger] config_of(
                        values,
                        opt_text(default_root),
                        opt_text(stored_api_key),
                    ) {
                        Ok(view) => out matches Ok(config) && config@ == view,
                        Err(error) => failure(out) == Some(error),
                    }
                },
    {
        let values = ConfigValues {
            base_url: reader("POLARIS_BASE_URL"),
            api_key: reader("POLARIS_API_KEY"),
            root: reader("POLARIS_ROOT"),
            legacy_root: reader("TICK_ROOT"),
            concurrency: reader("POLARIS_CONCURRENCY"),
            legacy_concurrency: reader("TICK_CONCURRENCY"),
            timeout_secs: reader("POLARIS_TIMEOUT_SECS"),
            legacy_timeout_secs: reader("TICK_TIMEOUT_SECS"),
        };
        Config::from_values(values, default_root, stored_api_key)
    }
}

/// A key in the environment goes before a stored one. Where neither is there, there is none.
pub proof fn lemma_environment_key_goes_first(
    values: ConfigValues,
    default_root: Option<Seq<char>>,
    stored_key: Option<Seq<char>>,
)
    requires
        config_of(values, default_root, stored_key) is Ok,
    ensures
        ({
            let config = config_of(values, default_root, stored_key)->Ok_0;
            let env_key = key_of(opt_text(values.api_key));
            &&& env_key is Some ==> config.api_key == env_key && config.api_key_source == Some(
                ApiKeySource::Environment,
            )
            &&& env_key is None ==> config.api_key == stored_key
            &&& config.api_key is Some <==> config.api_key_source is Some
            &&& config.concurrency > 0 && config.timeout_secs > 0
        }),
{
}

/// The old names are still accepted: what they make under their own names, they make under the new
/// ones.
pub proof fn lemma_old_names_are_accepted(
    old_names: ConfigValues,
    new_names: ConfigValues,
    default_root: Option<Seq<char>>,
    stored_key: Option<Seq<char>>,
)
    requires
        old_names.root is None && old_names.concurrency is None && old_names.timeout_secs is None,
        new_names.legacy_root is None && new_names.legacy_concurrency is None
            && new_names.legacy_timeout_secs is None,
        new_names.root == old_names.legacy_root,
        new_names.concurrency == old_names.legacy_concurrency,
        new_names.timeout_secs == old_names.legacy_timeout_secs,
        new_names.base_url == old_names.base_url,
        new_names.api_key == old_names.api_key,
    ensures
        config_of(old_names, default_root, stored_key) is Ok <==> config_of(
            new_names,
            default_root,
            stored_key,
        ) is Ok,
        config_of(old_names, default_root, stored_key) is Ok ==> config_of(
            old_names,
            default_root,
            stored_key,
        ) == config_of(new_names, default_root, stored_key),
{
}

// ---------------------------------------------------------------------------
// What the settings come to
// ---------------------------------------------------------------------------

/// Whether a variable is set to more than white space.
pub open spec fn is_set(value: Option<String>) -> bool {
    value is Some && exists|i: int| 0 <= i < value->0@.len() && !white(#[trigger] value->0@[i])
}

proof fn lemma_is_set(value: Option<String>)
    ensures
        is_set(value) <==> value is Some && !blank(value->0@),
{
    if value is Some {
        let at = lemma_trim(value->0@);
    }
}

/// The root is the one that is set under the new name, or else under the old one, or else the default.
/// Without any there are no settings.
pub proof fn lemma_root_setting(
    values: ConfigValues,
    default_root: Option<String>,
    stored: Option<String>,
    out: Result<Config, TickError>,
)
    requires
        call_ensures(Config::from_values, (values, default_root, stored), out),
    ensures
        out matches Ok(config) ==> {
            &&& is_set(values.root) ==> config.root@ == values.root->0@
            &&& !is_set(values.root) && is_set(values.legacy_root) ==> config.root@
                == values.legacy_root->0@
            &&& !is_set(values.root) && !is_set(values.legacy_root) ==> default_root is Some
                && config.root@ == default_root->0@
        },
        !is_set(values.root) && !is_set(values.legacy_root) && default_root is None ==> out is Err,
{
    lemma_is_set(values.root);
    lemma_is_set(values.legacy_root);
    match config_of(values, opt_text(default_root), opt_text(stored)) {
        Ok(view) => {
            assert(out->Ok_0@ == view);
        },
        Err(_) => {},
    }
}

/// How many snapshots are fetched at once, and how long a request may take, are the numbers that are
/// set under the new names, or else under the old ones. Where none is set, four snapshots are fetched
/// at once and a request may take sixty seconds. Zero is refused.
pub proof fn lemma_number_settings(
    values: ConfigValues,
    default_root: Option<String>,
    stored: Option<String>,
    out: Result<Config, TickError>,
    n: nat,
)
    requires
        call_ensures(Config::from_values, (values, default_root, stored), out),
    ensures
        out matches Ok(config) ==> {
            &&& values.concurrency is None && values.legacy_concurrency is None
                ==> config.concurrency == 4
            &&& values.timeout_secs is None && values.legacy_timeout_secs is None
                ==> config.timeout_secs == 60
            &&& values.concurrency is Some && values.concurrency->0@ == decimal(n)
                ==> config.concurrency == n
            &&& values.concurrency is None && values.legacy_concurrency is Some
                && values.legacy_concurrency->0@ == decimal(n) ==> config.concurrency == n
            &&& values.timeout_secs is Some && values.timeout_secs->0@ == decimal(n)
                ==> config.timeout_secs == n
            &&& values.timeout_secs is None && values.legacy_timeout_secs is Some
                && values.legacy_timeout_secs->0@ == decimal(n) ==> config.timeout_secs == n
            &&& config.concurrency > 0 && config.timeout_secs > 0
        },
        values.concurrency is Some && values.concurrency->0@ == decimal(0) ==> out is Err,
        values.timeout_secs is Some && values.timeout_secs->0@ == decimal(0) ==> out is Err,
{
    lemma_written_number_is_read(n, usize::MAX as nat);
    lemma_written_number_is_read(n, u64::MAX as nat);
    lemma_written_number_is_read(0, usize::MAX as nat);
    lemma_written_number_is_read(0, u64::MAX as nat);
    lemma_decimal_is_trimmed(n);
    lemma_decimal_is_trimmed(0);
    match config_of(values, opt_text(default_root), opt_text(stored)) {
        Ok(view) => {
            assert(out->Ok_0@ == view);
        },
        Err(_) => {},
    }
}

/// Numbers that are written out are accepted, from one on.
pub proof fn lemma_numbers_are_accepted(
    values: ConfigValues,
    default_root: Option<String>,
    stored: Option<String>,
    out: Result<Config, TickError>,
    concurrency: nat,
    timeout: nat,
)
    requires
        call_ensures(Config::from_values, (values, default_root, stored), out),
        default_root is Some,
        1 <= concurrency <= usize::MAX,
        1 <= timeout <= u64::MAX,
        values.concurrency matches Some(text) ==> text@ == decimal(concurrency),
        values.concurrency is None ==> (values.legacy_concurrency matches Some(text) ==> text@
            == decimal(concurrency)),
        values.timeout_secs matches Some(text) ==> text@ == decimal(timeout),
        values.timeout_secs is None ==> (values.legacy_timeout_secs matches Some(text) ==> text@
            == decimal(timeout)),
    ensures
        out is Ok,
{
    lemma_written_number_is_read(concurrency, usize::MAX as nat);
    lemma_written_number_is_read(timeout, u64::MAX as nat);
    lemma_decimal_is_trimmed(concurrency);
    lemma_decimal_is_trimmed(timeout);
    assert(config_of(values, opt_text(default_root), opt_text(stored)) is Ok);
}

proof fn lemma_decimal_is_trimmed(n: nat)
    ensures
        trim(decimal(n)) == decimal(n),
{
    let s = decimal(n);
    lemma_decimal_reads_back(n);
    assert(digit(s[0]));
    assert(digit(s[s.len() - 1]));
    lemma_nothing_to_trim(s);
}

/// The address of the server is the one that is set, without slashes at its end, or else the usual
/// one.
pub proof fn lemma_address_setting(
    values: ConfigValues,
    default_root: Option<String>,
    stored: Option<String>,
    out: Result<Config, TickError>,
)
    requires
        call_ensures(Config::from_values, (values, default_root, stored), out),
    ensures
        out matches Ok(config) ==> {
            &&& values.base_url is None ==> config.base_url@ == "https://api.polaris.supply"@
            &&& config.base_url@.len() > 0 && config.base_url@.last() != '/'
            &&& values.base_url matches Some(text) ==> {
                let given = text@;
                let url = config.base_url@;
                given.len() > 0 && !white(given[0]) && given[0] != '/' && !white(given.last())
                    ==> {
                    &&& url.len() <= given.len()
                    &&& given.take(url.len() as int) == url
                    &&& forall|i: int| url.len() <= i < given.len() ==> #[trigger] given[i] == '/'
                }
            }
        },
{
    reveal_strlit("https://api.polaris.supply");
    match config_of(values, opt_text(default_root), opt_text(stored)) {
        Ok(view) => {
            assert(out->Ok_0@ == view);
            if let Some(text) = values.base_url {
                let given = text@;
                lemma_trim_end_char(trim(given), '/');
                if given.len() > 0 && !white(given[0]) && given[0] != '/' && !white(given.last()) {
                    lemma_nothing_to_trim(given);
                    if trim_end_char(given, '/').len() == 0 {
                        assert(given[0] == '/');
                    }
                }
            }
        },
        Err(_) => {},
    }
}

/// The API key is the one of the environment, where one is set there, without white space around it,
/// and else the stored one. It is told where it comes from.
pub proof fn lemma_key_setting(
    values: ConfigValues,
    default_root: Option<String>,
    stored: Option<String>,
    out: Result<Config, TickError>,
)
    requires
        call_ensures(Config::from_values, (values, default_root, stored), out),
    ensures
        out matches Ok(config) ==> {
            &&& is_set(values.api_key) ==> config.api_key is Some && config.api_key->0@ == trim(
                values.api_key->0@,
            ) && config.api_key_source == Some(ApiKeySource::Environment)
            &&& !is_set(values.api_key) && stored is Some ==> config.api_key is Some
                && config.api_key->0@ == stored->0@ && config.api_key_source == Some(
                ApiKeySource::CredentialStore,
            )
            &&& !is_set(values.api_key) && stored is None ==> config.api_key is None
                && config.api_key_source is None
        },
{
    lemma_is_set(values.api_key);
    match config_of(values, opt_text(default_root), opt_text(stored)) {
        Ok(view) => {
            assert(out->Ok_0@ == view);
        },
        Err(_) => {},
    }
}

/// Data is kept in the directory of the tool's name, unless only that of its old name exists.
pub proof fn lemma_default_root(
    primary: Option<String>,
    primary_exists: bool,
    legacy: Option<String>,
    legacy_exists: bool,
    out: Result<String, TickError>,
)
    requires
        call_ensures(default_root, (primary, primary_exists, legacy, legacy_exists), out),
    ensures
        out is Ok <==> primary is Some,
        primary_exists && primary is Some ==> out->Ok_0@ == primary->0@,
        !legacy_exists && primary is Some ==> out->Ok_0@ == primary->0@,
        !primary_exists && legacy_exists && primary is Some && legacy is Some ==> out->Ok_0@
            == legacy->0@,
{
}

} // verus!
