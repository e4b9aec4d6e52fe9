//! The resolved runtime settings of the CLI: cache directory, network policy and
//! warnings, with the command-line overrides applied on top of the configuration.

use vstd::prelude::*;
use vstd::string::*;
use crate::text::texts;
use crate::flow_resolve::{has_drive_prefix, has_plain_file_name, path_tail};

verus! {

/// Connection kind of the environment.
#[derive(Clone, Copy, Debug, PartialEq, Eq)]
pub enum ConnectionKind {
    Online,
    Offline,
}

/// Whether network operations are allowed.
#[derive(Debug, Clone, Copy, PartialEq, Eq)]
pub enum NetworkPolicy {
    Online,
    Offline,
}

/// The runtime settings the CLI works with.
#[derive(Clone, Debug, PartialEq, Eq)]
pub struct RuntimeState {
    pub cache_dir: String,
    pub connection: Option<ConnectionKind>,
    pub warnings: Vec<String>,
}

/// A network operation refused in offline mode.
#[derive(Clone, Debug, PartialEq, Eq)]
pub struct OfflineError {
    pub action: String,
}

/// Format of a configuration override file.
#[derive(Clone, Copy, Debug, PartialEq, Eq)]
pub enum ConfigFormat {
    Json,
    Toml,
}

/// The policy a connection kind gives: offline only when the environment says so.
pub open spec fn policy_of(connection: Option<ConnectionKind>) -> NetworkPolicy {
    match connection {
        Some(ConnectionKind::Offline) => NetworkPolicy::Offline,
        _ => NetworkPolicy::Online,
    }
}

/// The connection once `--offline` has been taken into account.
pub open spec fn overridden_connection(
    connection: Option<ConnectionKind>,
    cli_offline: bool,
) -> Option<ConnectionKind> {
    if cli_offline {
        Some(ConnectionKind::Offline)
    } else {
        connection
    }
}

/// The warning recorded when `--offline` is given.
pub open spec fn offline_warning() -> Seq<char> {
    "offline forced by CLI --offline flag"@
}

/// The text of a refused network operation.
pub open spec fn offline_error_text(action: Seq<char>) -> Seq<char> {
    "network operation blocked in offline mode: "@ + action
}

impl OfflineError {
    /// The message shown for the error.
    pub fn message(&self) -> (m: String)
        ensures
            m@ == offline_error_text(self.action@),
    {
        let mut m = "network operation blocked in offline mode: ".to_owned();
        m.append(self.action.as_str());
        m
    }
}

impl RuntimeState {
    /// The cache directory.
    pub fn cache_dir(&self) -> (r: String)
        ensures
            r == self.cache_dir,
    {
        self.cache_dir.clone()
    }

    /// Offline when the environment's connection is offline, else online.
    pub fn network_policy(&self) -> (r: NetworkPolicy)
        ensures
            r == policy_of(self.connection),
    {
        match self.connection {
            Some(ConnectionKind::Offline) => NetworkPolicy::Offline,
            _ => NetworkPolicy::Online,
        }
    }

    /// Refuses a network operation named `action` in offline mode.
    pub fn require_online(&self, action: &str) -> (r: Result<(), OfflineError>)
        ensures
            policy_of(self.connection) == NetworkPolicy::Online ==> r is Ok,
            policy_of(self.connection) == NetworkPolicy::Offline ==> r is Err && r->Err_0.action@
                == action@,
    {
        match self.network_policy() {
            NetworkPolicy::Online => Ok(()),
            NetworkPolicy::Offline => Err(OfflineError { action: action.to_owned() }),
        }
    }

    /// The warnings gathered while resolving the configuration.
    pub fn warnings(&self) -> (r: &[String])
        ensures
            r@ == self.warnings@,
    {
        self.warnings.as_slice()
    }
}

/// The settings with the command-line overrides applied: `--offline` forces the offline
/// connection and records a warning; a cache directory given on the command line
/// replaces the configured one.
pub fn apply_cli_overrides(state: RuntimeState, cli_offline: bool, cli_cache_dir: Option<String>) -> (r:
    RuntimeState)
    ensures
        r.connection == overridden_connection(state.connection, cli_offline),
        texts(r.warnings@) == (if cli_offline {
            texts(state.warnings@).push(offline_warning())
        } else {
            texts(state.warnings@)
        }),
        r.cache_dir == (match cli_cache_dir {
            Some(dir) => dir,
            None => state.cache_dir,
        }),
{
    let mut state = state;
    if cli_offline {
        state.connection = Some(ConnectionKind::Offline);
        let ghost before = state.warnings@;
        state.warnings.push("offline forced by CLI --offline flag".to_owned());
        assert(texts(state.warnings@) =~= texts(before).push(offline_warning()));
    }
    if let Some(dir) = cli_cache_dir {
        state.cache_dir = dir;
    }
    state
}

/// The override format an extension selects: JSON for `json` in any ASCII case,
/// TOML otherwise (also when there is no extension).
pub open spec fn format_for_extension(extension: Option<Seq<char>>) -> ConfigFormat {
    match extension {
        Some(e) => if eq_ignore_ascii_case(e, seq!['j', 's', 'o', 'n']) {
            ConfigFormat::Json
        } else {
            ConfigFormat::Toml
        },
        None => ConfigFormat::Toml,
    }
}

/// `c` with ASCII upper-case letters made lower-case.
pub open spec fn ascii_lower(c: char) -> int {
    let n = c as int;
    if 0x41 <= n && n <= 0x5a {
        n + 0x20
    } else {
        n
    }
}

/// Equal up to ASCII case (`str::eq_ignore_ascii_case`).
pub open spec fn eq_ignore_ascii_case(a: Seq<char>, b: Seq<char>) -> bool {
    a.len() == b.len() && forall|i: int| 0 <= i < a.len() ==> ascii_lower(#[trigger] a[i])
        == ascii_lower(b[i])
}

fn lower(c: char) -> (r: u32)
    ensures
        r == ascii_lower(c),
{
    let n = c as u32;
    if 0x41 <= n && n <= 0x5a {
        n + 0x20
    } else {
        n
    }
}

/// Whether `e` is `json` up to ASCII case.
fn is_json(e: &str) -> (b: bool)
    ensures
        b == eq_ignore_ascii_case(e@, seq!['j', 's', 'o', 'n']),
{
    let json = ['j', 's', 'o', 'n'];
    let n = e.unicode_len();
    if n != 4 {
        return false;
    }
    let mut i: usize = 0;
    while i < 4
        invariant
            n == e@.len(),
            n == 4,
            i <= 4,
            json@ == seq!['j', 's', 'o', 'n'],
            forall|k: int| 0 <= k < i ==> ascii_lower(#[trigger] e@[k]) == ascii_lower(json@[k]),
        decreases 4 - i,
    {
        if lower(e.get_char(i)) != lower(json[i]) {
            return false;
        }
        i = i + 1;
    }
    true
}

/// The format of a configuration override file with the given extension.
pub fn override_layer_format(extension: Option<&str>) -> (r: ConfigFormat)
    ensures
        r == format_for_extension(
            match extension {
                Some(e) => Some(e@),
                None => None,
            },
        ),
{
    match extension {
        None => ConfigFormat::Toml,
        Some(e) => if is_json(e) {
            ConfigFormat::Json
        } else {
            ConfigFormat::Toml
        },
    }
}

/// Index of the last `.` in `p`, or -1 when there is none.
pub open spec fn last_dot(p: Seq<char>) -> int
    decreases p.len(),
{
    if p.len() == 0 {
        -1
    } else if p.last() == '.' {
        p.len() - 1
    } else {
        last_dot(p.drop_last())
    }
}

/// The extension of a file name: what follows its last `.`, when that `.` is not the
/// name's first character.
pub open spec fn file_name_extension(name: Seq<char>) -> Option<Seq<char>> {
    if last_dot(name) > 0 {
        Some(name.skip(last_dot(name) + 1))
    } else {
        None
    }
}

/// Index of the last `/` or `\` in `p`, or -1 when there is none.
pub open spec fn last_separator(p: Seq<char>) -> int
    decreases p.len(),
{
    if p.len() == 0 {
        -1
    } else if p.last() == '/' || p.last() == '\\' {
        p.len() - 1
    } else {
        last_separator(p.drop_last())
    }
}

/// Where the file name starts on a platform that separates with both `/` and `\`
/// (after a drive such as `C:` when nothing separates it from the name).
pub open spec fn name_start(p: Seq<char>) -> int {
    if has_drive_prefix(p) && last_separator(p) < 0 {
        2
    } else {
        last_separator(p) + 1
    }
}

/// A path whose file name has an extension on every platform: it does not start with two
/// separators (a network or device prefix), and its last `.` comes after every `/` and
/// `\`, after any drive, and not as the first character of the file name, which is not
/// `..`.
pub open spec fn has_dotted_file_name(p: Seq<char>) -> bool {
    &&& !(p.len() >= 2 && (p[0] == '/' || p[0] == '\\') && (p[1] == '/' || p[1] == '\\'))
    &&& last_dot(p) > name_start(p)
    &&& p.skip(name_start(p)) != seq!['.', '.']
}

/// The text after the last `.` of `p`.
pub open spec fn after_last_dot(p: Seq<char>) -> Seq<char> {
    p.skip(last_dot(p) + 1)
}

/// Calls `std::path::Path::extension`: the part of the file name after its last `.`,
/// if the name has a `.` that is not its first character. Stated: the extension holds no
/// `.` and stands in the path right after a `.`; when the last `.` of the path lies in the
/// file name on every platform (`has_dotted_file_name`), the extension is the text after
/// it; for a path whose text after its last `/` is a bare file name (no `\`, no drive,
/// no leading `//`), the extension is exactly that of this name. Not stated: the
/// extension of other paths, whose file name depends on the platform's path syntax.
#[verifier::external_body]
fn path_extension(path: &str) -> (r: Option<String>)
    ensures
        has_dotted_file_name(path@) ==> r is Some && r->Some_0@ == after_last_dot(path@),
        has_plain_file_name(path@) ==> (r is Some) == (file_name_extension(path_tail(path@))
            is Some),
        has_plain_file_name(path@) && r is Some ==> r->Some_0@ == file_name_extension(
            path_tail(path@),
        )->Some_0,
        r matches Some(e) ==> !e@.contains('.') && exists|i: int|
            0 <= i && i + e@.len() + 1 <= path@.len() && #[trigger] path@.subrange(
                i,
                i + e@.len() + 1,
            ) == seq!['.'] + e@,
{
    std::path::Path::new(path).extension().and_then(|e| e.to_str()).map(|e| e.to_owned())
}

/// The format of the configuration override file at `path`, chosen by its extension.
pub fn override_format_for_path(path: &str) -> (r: ConfigFormat)
    ensures
        !path@.contains('.') ==> r == ConfigFormat::Toml,
        has_plain_file_name(path@) ==> r == format_for_extension(
            file_name_extension(path_tail(path@)),
        ),
        has_dotted_file_name(path@) ==> r == format_for_extension(Some(after_last_dot(path@))),
{
    match path_extension(path) {
        Some(e) => {
            proof {
                let i = choose|i: int|
                    0 <= i && i + e@.len() + 1 <= path@.len() && #[trigger] path@.subrange(
                        i,
                        i + e@.len() + 1,
                    ) == seq!['.'] + e@;
                assert(path@.subrange(i, i + e@.len() + 1)[0] == '.');
                assert(path@[i] == '.');
            }
            override_layer_format(Some(e.as_str()))
        },
        None => override_layer_format(None),
    }
}

/// A layer of configuration overrides, as `greentic_config` reads it.
#[verifier::external_type_specification]
#[verifier::external_body]
pub struct ExConfigLayer(greentic_config::ConfigLayer);

/// What `serde_json` reads from `contents` as a configuration layer: the layer, or `None`
/// where the text is not one.
pub uninterp spec fn json_layer_parses(contents: Seq<char>) -> Option<greentic_config::ConfigLayer>;

/// What `toml` reads from `contents` as a configuration layer: the layer, or `None` where
/// the text is not one.
pub uninterp spec fn toml_layer_parses(contents: Seq<char>) -> Option<greentic_config::ConfigLayer>;

/// What `contents` reads as in format `format`: the layer, or `None`.
pub open spec fn layer_in_format(format: ConfigFormat, contents: Seq<char>) -> Option<
    greentic_config::ConfigLayer,
> {
    match format {
        ConfigFormat::Json => json_layer_parses(contents),
        ConfigFormat::Toml => toml_layer_parses(contents),
    }
}

/// Whether `contents` is a configuration layer in format `format`.
pub open spec fn layer_parses(format: ConfigFormat, contents: Seq<char>) -> bool {
    layer_in_format(format, contents) is Some
}

/// What reading `contents` in format `format` gives: the layer it parses to, or the
/// format that could not be read.
pub open spec fn layer_outcome(format: ConfigFormat, contents: Seq<char>) -> Result<
    greentic_config::ConfigLayer,
    ConfigFormat,
> {
    match layer_in_format(format, contents) {
        Some(layer) => Ok(layer),
        None => Err(format),
    }
}

/// A layer read from an override file is the one its text parses to in the format that
/// was tried, never another one; and the text is refused, naming that format, exactly
/// when it does not parse in it.
pub proof fn law_read_layer_is_the_parse(format: ConfigFormat, contents: Seq<char>)
    ensures
        layer_outcome(format, contents) matches Ok(l) ==> {
            ||| format == ConfigFormat::Json && json_layer_parses(contents) == Some(l)
            ||| format == ConfigFormat::Toml && toml_layer_parses(contents) == Some(l)
        },
        (layer_outcome(format, contents) == Err::<greentic_config::ConfigLayer, ConfigFormat>(
            format,
        )) == ((format == ConfigFormat::Json && json_layer_parses(contents) is None) || (format
            == ConfigFormat::Toml && toml_layer_parses(contents) is None)),
{
}

/// Calls `serde_json::from_str` for a `greentic_config::ConfigLayer`. Stated: what it gives
/// is a function of the text alone (named `json_layer_parses`): the parse is deterministic
/// and reads nothing but the text.
#[verifier::external_body]
fn parse_json_layer(contents: &str) -> (r: Option<greentic_config::ConfigLayer>)
    ensures
        r == json_layer_parses(contents@),
{
    serde_json::from_str(contents).ok()
}

/// Calls `toml::from_str` for a `greentic_config::ConfigLayer`. Stated: what it gives is a
/// function of the text alone (named `toml_layer_parses`): the parse is deterministic and
/// reads nothing but the text.
#[verifier::external_body]
fn parse_toml_layer(contents: &str) -> (r: Option<greentic_config::ConfigLayer>)
    ensures
        r == toml_layer_parses(contents@),
{
    toml::from_str(contents).ok()
}

/// The layer that was read, or the format that could not be read.
pub fn parsed_layer(parsed: Option<greentic_config::ConfigLayer>, format: ConfigFormat) -> (r:
    Result<greentic_config::ConfigLayer, ConfigFormat>)
    ensures
        match parsed {
            Some(layer) => r == Ok::<greentic_config::ConfigLayer, ConfigFormat>(layer),
            None => r == Err::<greentic_config::ConfigLayer, ConfigFormat>(format),
        },
{
    match parsed {
        Some(layer) => Ok(layer),
        None => Err(format),
    }
}

/// The configuration override layer in `contents`, the text of the file at `path`: read
/// as JSON when the path's extension is `json` in any ASCII case, else as TOML. On failure
/// the error is the format that was tried.
pub fn override_layer(path: &str, contents: &str) -> (r: Result<
    greentic_config::ConfigLayer,
    ConfigFormat,
>)
    ensures
        r matches Err(f) ==> !layer_parses(f, contents@),
        r is Ok ==> layer_parses(ConfigFormat::Json, contents@) || layer_parses(
            ConfigFormat::Toml,
            contents@,
        ),
        r matches Ok(l) ==> json_layer_parses(contents@) == Some(l) || toml_layer_parses(
            contents@,
        ) == Some(l),
        r == layer_outcome(ConfigFormat::Json, contents@) || r == layer_outcome(
            ConfigFormat::Toml,
            contents@,
        ),
        !path@.contains('.') ==> (r is Ok) == layer_parses(ConfigFormat::Toml, contents@) && (r
            matches Err(f) ==> f == ConfigFormat::Toml),
        !path@.contains('.') ==> r == layer_outcome(ConfigFormat::Toml, contents@),
        has_plain_file_name(path@) ==> ({
            let f = format_for_extension(file_name_extension(path_tail(path@)));
            &&& (r is Ok) == layer_parses(f, contents@)
            &&& r matches Err(e) ==> e == f
            &&& r == layer_outcome(f, contents@)
        }),
        has_dotted_file_name(path@) ==> ({
            let f = format_for_extension(Some(after_last_dot(path@)));
            &&& (r is Ok) == layer_parses(f, contents@)
            &&& r matches Err(e) ==> e == f
            &&& r == layer_outcome(f, contents@)
        }),
{
    let format = override_format_for_path(path);
    match format {
        ConfigFormat::Json => parsed_layer(parse_json_layer(contents), ConfigFormat::Json),
        ConfigFormat::Toml => parsed_layer(parse_toml_layer(contents), ConfigFormat::Toml),
    }
}

/// With `--offline` given, the resulting settings refuse network operations whatever the
/// configuration said; without it, the configured policy stands.
pub proof fn law_offline_flag_forces_offline(connection: Option<ConnectionKind>, cli_offline: bool)
    ensures
        cli_offline ==> policy_of(overridden_connection(connection, cli_offline))
            == NetworkPolicy::Offline,
        !cli_offline ==> policy_of(overridden_connection(connection, cli_offline)) == policy_of(
            connection,
        ),
{
}

} // verus!
