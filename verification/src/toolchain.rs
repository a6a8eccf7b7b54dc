//! Pinning the Rust toolchain: choosing the channel of the newest stable release, as
//! `major.minor`, and setting it in the text of a `rust-toolchain.toml` file.

use vstd::prelude::*;
use toml_edit::{Array, DocumentMut, Item, RawString, Table, TomlError, Value};
use vstd::string::StringExecFns;

verus! {

/// A release as the release listing describes it.
#[derive(Debug, Clone, PartialEq)]
pub struct Release {
    /// The release's tag, if it has one.
    pub tag_name: Option<String>,
    /// Whether the release is a draft.
    pub draft: bool,
    /// Whether the release is marked as a pre-release.
    pub prerelease: bool,
}

/// What semver's `Version::parse` makes of `tag`: `None` when it is not a version, otherwise the
/// major and minor numbers and whether the pre-release and the build metadata are empty.
pub uninterp spec fn semver_version_parts(tag: Seq<char>) -> Option<(u64, u64, bool, bool)>;

/// The character of a decimal digit.
pub open spec fn digit_char(d: nat) -> char {
    (48 + d) as char
}

/// The decimal digits of `n`, most significant first, without leading zeros.
pub open spec fn decimal(n: nat) -> Seq<char>
    decreases n,
{
    if n < 10 {
        seq![digit_char(n)]
    } else {
        decimal(n / 10).push(digit_char(n % 10))
    }
}

/// The channel `major.minor`.
pub open spec fn channel_text(major: u64, minor: u64) -> Seq<char> {
    decimal(major as nat) + seq!['.'] + decimal(minor as nat)
}

/// The channel of a version, given as what [`semver_version_parts`] gives: `major.minor` when the
/// version has neither pre-release nor build metadata.
pub open spec fn stable_channel_of(parts: (u64, u64, bool, bool)) -> Option<Seq<char>> {
    if parts.2 && parts.3 {
        Some(channel_text(parts.0, parts.1))
    } else {
        None
    }
}

/// The channel a release offers: none for drafts, pre-releases, releases without a tag or whose
/// tag is not a version, and versions with pre-release or build metadata.
pub open spec fn release_channel(release: Release) -> Option<Seq<char>> {
    if release.draft || release.prerelease {
        None
    } else {
        match release.tag_name {
            None => None,
            Some(tag) => match semver_version_parts(tag@) {
                None => None,
                Some(parts) => stable_channel_of(parts),
            },
        }
    }
}

/// The channel of the first release, in listing order, that offers one.
pub open spec fn first_channel(releases: Seq<Release>) -> Option<Seq<char>>
    decreases releases.len(),
{
    if releases.len() == 0 {
        None
    } else {
        match release_channel(releases[0]) {
            Some(channel) => Some(channel),
            None => first_channel(releases.drop_first()),
        }
    }
}

/// Parses `tag` with semver's `Version::parse`.
///
/// The contract names the result and states nothing of it: SemVer's grammar is left to semver.
#[verifier::external_body]
fn parse_version_tag(tag: &str) -> (r: Option<(u64, u64, bool, bool)>)
    ensures
        r == semver_version_parts(tag@),
{
    match semver::Version::parse(tag) {
        Ok(version) => Some(
            (version.major, version.minor, version.pre.is_empty(), version.build.is_empty()),
        ),
        Err(_) => None,
    }
}

/// `u64::to_string`: std writes an integer in decimal, without leading zeros.
#[verifier::external_body]
fn decimal_text(n: u64) -> (r: String)
    ensures
        r@ == decimal(n as nat),
{
    n.to_string()
}

/// The channel `major.minor`.
fn format_channel(major: u64, minor: u64) -> (r: String)
    ensures
        r@ == channel_text(major, minor),
{
    let mut channel = decimal_text(major);
    let minor_text = decimal_text(minor);
    channel.append(".");
    proof {
        reveal_strlit(".");
    }
    channel.append(minor_text.as_str());
    channel
}

/// The channel of a parsed version: `major.minor` when it has neither pre-release nor build
/// metadata.
pub fn stable_channel(parts: (u64, u64, bool, bool)) -> (r: Option<String>)
    ensures
        r is Some <==> stable_channel_of(parts) is Some,
        r matches Some(s) ==> Some(s@) == stable_channel_of(parts),
{
    let (major, minor, no_prerelease, no_build) = parts;
    if no_prerelease && no_build {
        Some(format_channel(major, minor))
    } else {
        None
    }
}

/// The channel of the first release, in listing order, that is neither a draft nor a
/// pre-release and whose tag is a version without pre-release or build metadata; `None` if there
/// is no such release.
pub fn latest_stable_channel(releases: &Vec<Release>) -> (r: Option<String>)
    ensures
        r is Some <==> first_channel(releases@) is Some,
        r matches Some(s) ==> Some(s@) == first_channel(releases@),
{
    let mut i: usize = 0;
    assert(releases@.skip(0) =~= releases@);
    while i < releases.len()
        invariant
            i <= releases.len(),
            first_channel(releases@) == first_channel(releases@.skip(i as int)),
        decreases releases.len() - i,
    {
        let release = &releases[i];
        assert(releases@.skip(i as int)[0] == releases@[i as int]);
        assert(releases@.skip(i as int).drop_first() =~= releases@.skip(i + 1));
        if !release.draft && !release.prerelease {
            if let Some(tag) = &release.tag_name {
                if let Some(parts) = parse_version_tag(tag.as_str()) {
                    if let Some(channel) = stable_channel(parts) {
                        return Some(channel);
                    }
                }
            }
        }
        i += 1;
    }
    None
}


#[verifier::external_type_specification]
#[verifier::external_body]
pub struct ExTomlError(TomlError);

/// A value's decor as TOML text: what stands before it and what follows it on its line; `None`
/// where toml_edit's default applies.
pub struct ValueDecor {
    /// The text before the value.
    pub prefix: Option<String>,
    /// The text after the value.
    pub suffix: Option<String>,
}

/// An optional text, by its characters.
pub open spec fn optional_text(text: Option<String>) -> Option<Seq<char>> {
    match text {
        Some(t) => Some(t@),
        None => None,
    }
}

/// The decor of a value, by its prefix and suffix.
pub open spec fn decor_view(decor: ValueDecor) -> (Option<Seq<char>>, Option<Seq<char>>) {
    (optional_text(decor.prefix), optional_text(decor.suffix))
}

/// The keys, each by its characters.
pub open spec fn keys_view(keys: Seq<String>) -> Seq<Seq<char>> {
    keys.map_values(|k: String| k@)
}

/// What toml_edit reads from the document `text` at `key` of the table `table` (created empty
/// when missing): `None` when `text` is not TOML; `Some(None)` when `table` is neither a table
/// nor an inline table; otherwise the string held at `key`, if it holds one.
pub uninterp spec fn toml_table_string(
    text: Seq<char>,
    table: Seq<char>,
    key: Seq<char>,
) -> Option<Option<Option<Seq<char>>>>;

/// The decor of the value held at `key` of the table `table` of the document `text`, as
/// toml_edit reads it; `None` when `key` holds no value.
pub uninterp spec fn toml_value_decor(
    text: Seq<char>,
    table: Seq<char>,
    key: Seq<char>,
) -> Option<(Option<Seq<char>>, Option<Seq<char>>)>;

/// The document `text` as toml_edit writes it after, in its table `table`, `key` has been set to
/// the string `value` with the decor `prefix` and `suffix` (toml_edit's default where `None`),
/// and then each of `empty_arrays`, in order, to an empty array.
pub uninterp spec fn toml_table_edited(
    text: Seq<char>,
    table: Seq<char>,
    key: Seq<char>,
    value: Seq<char>,
    prefix: Option<Seq<char>>,
    suffix: Option<Seq<char>>,
    empty_arrays: Seq<Seq<char>>,
) -> Seq<char>;

/// Parses `text` as a TOML document (`DocumentMut`'s `FromStr`), takes its table `table` as
/// `entry(table).or_insert(empty table).as_table_like_mut()` does, and reads the string at `key`
/// (`TableLike::get`, `Item::as_str`). The contract names the result.
#[verifier::external_body]
fn read_table_string(text: &str, table: &str, key: &str) -> (r: Result<
    Option<Option<String>>,
    TomlError,
>)
    ensures
        r is Err <==> toml_table_string(text@, table@, key@) is None,
        r matches Ok(found) ==> toml_table_string(text@, table@, key@) == Some(
            match found { Some(t) => Some(optional_text(t)), None => None },
        ),
{
    let mut document: DocumentMut = text.parse()?;
    let found = document.entry(table).or_insert(Item::Table(Table::new())).as_table_like_mut();
    Ok(found.map(|t| t.get(key).and_then(Item::as_str).map(String::from)))
}

/// Reads, in the document `text` taken as [`read_table_string`] takes it, the decor of the value
/// at `key` (`Item::as_value`, `Value::decor`, `RawString::as_str`; a parsed `DocumentMut` holds
/// its decor as text). The contract names the result.
#[verifier::external_body]
fn read_value_decor(text: &str, table: &str, key: &str) -> (r: Option<ValueDecor>)
    requires
        toml_table_string(text@, table@, key@) matches Some(Some(_)),
    ensures
        toml_value_decor(text@, table@, key@) == match r {
            Some(d) => Some(decor_view(d)),
            None => None,
        },
{
    let mut document: DocumentMut = text.parse().expect("the table was read");
    let found = document.entry(table).or_insert(Item::Table(Table::new())).as_table_like_mut();
    let value = found.expect("the table was read").get(key).and_then(Item::as_value)?;
    let prefix = value.decor().prefix().and_then(RawString::as_str).map(String::from);
    Some(ValueDecor { prefix, suffix: value.decor().suffix().and_then(RawString::as_str).map(String::from) })
}

/// Sets, in the table `table` of the document `text` taken as [`read_table_string`] takes it,
/// `key` to a `Value` from `value` with the given decor (`Decor::set_prefix`, `set_suffix`) and
/// each of `empty_arrays` to an empty `Array` (`TableLike::insert`), and writes the document
/// (`Display`). The contract names the result.
#[verifier::external_body]
fn edit_table(
    text: &str,
    table: &str,
    key: &str,
    value: &str,
    decor: &ValueDecor,
    empty_arrays: &Vec<String>,
) -> (r: String)
    requires
        toml_table_string(text@, table@, key@) matches Some(Some(_)),
    ensures
        r@ == toml_table_edited(
            text@,
            table@,
            key@,
            value@,
            decor_view(*decor).0,
            decor_view(*decor).1,
            keys_view(empty_arrays@),
        ),
{
    let mut document: DocumentMut = text.parse().expect("the table was read");
    let found = document.entry(table).or_insert(Item::Table(Table::new())).as_table_like_mut();
    let target = found.expect("the table was read");
    let mut string = Value::from(value);
    if let Some(prefix) = &decor.prefix { string.decor_mut().set_prefix(prefix.as_str()); }
    if let Some(suffix) = &decor.suffix { string.decor_mut().set_suffix(suffix.as_str()); }
    target.insert(key, Item::Value(string));
    for array_key in empty_arrays { target.insert(array_key, Item::Value(Value::Array(Array::new()))); }
    document.to_string()
}

/// Why the toolchain file cannot be updated.
#[derive(Debug)]
pub enum ToolchainEditError {
    /// The file is not TOML.
    Parse(TomlError),
    /// Its `toolchain` entry is neither a table nor an inline table.
    InvalidToolchainTable,
}

/// The text of the toolchain file: empty when there is no file.
pub open spec fn file_text(contents: Option<String>) -> Seq<char> {
    match contents {
        Some(c) => c@,
        None => Seq::empty(),
    }
}

/// The decor the new channel takes: that of the channel's previous value, where it has one.
pub open spec fn kept_decor(previous: Option<(Option<Seq<char>>, Option<Seq<char>>)>) -> (
    Option<Seq<char>>,
    Option<Seq<char>>,
) {
    match previous {
        Some(decor) => decor,
        None => (None, None),
    }
}

/// The lists a toolchain file is given: empty `components` and `targets` for a new file, none
/// for an existing one.
pub open spec fn new_file_lists(new_file: bool) -> Seq<Seq<char>> {
    if new_file {
        seq!["components"@, "targets"@]
    } else {
        seq![]
    }
}

/// The toolchain file `contents` (`None` when there is no file) with its `toolchain.channel` set
/// to `version`: `Ok(None)` when the channel already is `version` and nothing is to be written,
/// otherwise the new text. The new channel keeps the decor of the value it replaces, and a new
/// file also gets empty `components` and `targets` lists.
pub fn updated_toolchain(contents: &Option<String>, version: &str) -> (r: Result<
    Option<String>,
    ToolchainEditError,
>)
    ensures
        ({
            let text = file_text(*contents);
            match toml_table_string(text, "toolchain"@, "channel"@) {
                None => r matches Err(ToolchainEditError::Parse(_)),
                Some(None) => r matches Err(ToolchainEditError::InvalidToolchainTable),
                Some(Some(channel)) => if channel == Some(version@) {
                    r matches Ok(None)
                } else {
                    let decor = kept_decor(toml_value_decor(text, "toolchain"@, "channel"@));
                    r matches Ok(Some(s)) && s@ == toml_table_edited(
                        text,
                        "toolchain"@,
                        "channel"@,
                        version@,
                        decor.0,
                        decor.1,
                        new_file_lists(contents is None),
                    )
                },
            }
        }),
{
    let text: &str = match contents {
        Some(c) => c.as_str(),
        None => "",
    };
    proof {
        reveal_strlit("");
    }
    assert(text@ == file_text(*contents));
    let channel = match read_table_string(text, "toolchain", "channel") {
        Err(error) => return Err(ToolchainEditError::Parse(error)),
        Ok(None) => return Err(ToolchainEditError::InvalidToolchainTable),
        Ok(Some(channel)) => channel,
    };
    let version_text = String::from_str(version);
    if let Some(current) = &channel {
        if *current == version_text {
            return Ok(None);
        }
    }
    let decor = match read_value_decor(text, "toolchain", "channel") {
        Some(previous) => previous,
        None => ValueDecor { prefix: None, suffix: None },
    };
    let mut lists: Vec<String> = Vec::new();
    if contents.is_none() {
        lists.push(String::from_str("components"));
        lists.push(String::from_str("targets"));
    }
    assert(keys_view(lists@) =~= new_file_lists(contents is None));
    Ok(Some(edit_table(text, "toolchain", "channel", version, &decor, &lists)))
}

} // verus!
