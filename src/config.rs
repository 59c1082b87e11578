//! Effective settings from three sources: command-line options, the optional
//! configuration file in the scanned directory, and built-in defaults.
use crate::walk::{name_in, names};
use vstd::prelude::*;
use vstd::utf8::is_ascii_chars;

verus! {

/// The name of the configuration file looked up in the scanned directory.
pub const CONFIG_FILE_NAME: &'static str = ".filmilhoes.yml";

/// The number of files reported when no source says otherwise.
pub const DEFAULT_FILES: usize = 1;

/// A value read under one key of the configuration document.
pub enum ConfigValue {
    /// The key is not there (or the document is empty or not a mapping).
    Missing,
    Integer(i64),
    Text(String),
    /// A list; each item is its text where it is a string.
    List(Vec<Option<String>>),
    /// Any other kind of value.
    Other,
}

#[derive(Debug, PartialEq, Eq, Structural, Clone, Copy)]
pub enum ConfigError {
    /// The configuration document is not valid YAML.
    Malformed,
    /// `files` is not a positive integer (that fits a `usize`).
    BadFiles,
    /// `minsize` is not a size expression.
    BadMinSize,
    /// `exclude` is not a list of strings.
    BadExclude,
    /// A size expression given on the command line does not parse.
    BadSize,
}

/// What the command line says; `None` and empty where it says nothing.
pub struct CliOptions {
    pub number: Option<usize>,
    pub min_size: Option<u64>,
    pub exclude: Vec<String>,
}

/// What the configuration file says; `None` and empty where it says nothing.
pub struct FileConfig {
    pub files: Option<usize>,
    pub min_size: Option<u64>,
    pub exclude: Vec<String>,
}

/// The effective settings of one run.
pub struct Settings {
    pub n: usize,
    pub min_size: Option<u64>,
    pub exclude: Vec<String>,
}

/// The value under `key` in the first YAML document of `text`; `None` where
/// `text` is not YAML.
pub uninterp spec fn yaml_field_of(text: Seq<char>, key: Seq<char>) -> Option<ConfigValue>;

/// Relies on yaml_rust::YamlLoader::load_from_str to parse the document and on
/// yaml_rust's `Index<&str>` for `Yaml` to look the key up; the result depends
/// on the text and the key alone.
#[verifier::external_body]
fn yaml_field(text: &str, key: &str) -> (r: Option<ConfigValue>)
    ensures
        r == yaml_field_of(text@, key@),
{
    match yaml_rust::YamlLoader::load_from_str(text) {
        Err(_) => None,
        Ok(docs) => Some(match docs.first().map(|d| &d[key]) {
            None | Some(yaml_rust::Yaml::BadValue) => ConfigValue::Missing,
            Some(yaml_rust::Yaml::Integer(i)) => ConfigValue::Integer(*i),
            Some(yaml_rust::Yaml::String(s)) => ConfigValue::Text(s.clone()),
            Some(yaml_rust::Yaml::Array(a)) => ConfigValue::List(a.iter().map(|e| e.as_str().map(String::from)).collect()),
            Some(_) => ConfigValue::Other,
        }),
    }
}

/// The byte count of a size expression such as "100MB"; `None` where it does
/// not parse.
pub uninterp spec fn size_bytes_of(s: Seq<char>) -> Option<u64>;

/// Relies on human_size's `FromStr` for `Size` and on `Size::into_bytes`; the
/// result depends on the text alone. The parser cuts the text at a character
/// count taken as a byte offset, so only ASCII text is handed to it.
#[verifier::external_body]
fn size_bytes(s: &str) -> (r: Option<u64>)
    requires
        is_ascii_chars(s@),
    ensures
        r == size_bytes_of(s@),
{
    s.parse::<human_size::Size>().ok().map(|z| z.into_bytes() as u64)
}

/// The byte count of a size expression: text that is not ASCII is no size
/// expression.
pub open spec fn size_spec(s: Seq<char>) -> Option<u64> {
    if is_ascii_chars(s) {
        size_bytes_of(s)
    } else {
        None
    }
}

/// The byte count of a size expression, `None` where it is not one.
pub fn size_of_text(s: &str) -> (r: Option<u64>)
    ensures
        r == size_spec(s@),
{
    if s.is_ascii() {
        size_bytes(s)
    } else {
        None
    }
}

/// A size expression given on the command line, in bytes.
pub fn parse_size(s: &str) -> (r: Result<u64, ConfigError>)
    ensures
        r == (match size_spec(s@) {
            Some(b) => Ok(b),
            None => Err(ConfigError::BadSize),
        }),
{
    match size_of_text(s) {
        Some(b) => Ok(b),
        None => Err(ConfigError::BadSize),
    }
}

pub open spec fn files_spec(v: ConfigValue) -> Result<Option<usize>, ConfigError> {
    match v {
        ConfigValue::Missing => Ok(None),
        ConfigValue::Integer(i) => if 0 < i <= usize::MAX {
            Ok(Some(i as usize))
        } else {
            Err(ConfigError::BadFiles)
        },
        _ => Err(ConfigError::BadFiles),
    }
}

pub open spec fn min_size_spec(v: ConfigValue) -> Result<Option<u64>, ConfigError> {
    match v {
        ConfigValue::Missing => Ok(None),
        ConfigValue::Text(s) => match size_spec(s@) {
            Some(b) => Ok(Some(b)),
            None => Err(ConfigError::BadMinSize),
        },
        _ => Err(ConfigError::BadMinSize),
    }
}

/// Whether every item of a list is a string.
pub open spec fn all_text(items: Seq<Option<String>>) -> bool {
    forall|i: int| 0 <= i < items.len() ==> (#[trigger] items[i]) is Some
}

pub open spec fn item_texts(items: Seq<Option<String>>) -> Seq<Seq<char>> {
    items.map_values(|o: Option<String>| o->0@)
}

/// Whether `exclude` is acceptable: missing, or a list of strings.
pub open spec fn exclude_ok(v: ConfigValue) -> bool {
    match v {
        ConfigValue::Missing => true,
        ConfigValue::List(items) => all_text(items@),
        _ => false,
    }
}

/// The names that an acceptable `exclude` value lists.
pub open spec fn exclude_names(v: ConfigValue) -> Seq<Seq<char>> {
    match v {
        ConfigValue::List(items) => item_texts(items@),
        _ => seq![],
    }
}

/// The `files` setting: a positive integer, or nothing.
pub fn files_setting(v: &ConfigValue) -> (r: Result<Option<usize>, ConfigError>)
    ensures
        r == files_spec(*v),
{
    match v {
        ConfigValue::Missing => Ok(None),
        ConfigValue::Integer(i) => if *i > 0 && (*i as u64) <= (usize::MAX as u64) {
            Ok(Some(*i as usize))
        } else {
            Err(ConfigError::BadFiles)
        },
        _ => Err(ConfigError::BadFiles),
    }
}

/// The `minsize` setting: a size expression, or nothing.
pub fn min_size_setting(v: &ConfigValue) -> (r: Result<Option<u64>, ConfigError>)
    ensures
        r == min_size_spec(*v),
{
    match v {
        ConfigValue::Missing => Ok(None),
        ConfigValue::Text(s) => match size_of_text(s.as_str()) {
            Some(b) => Ok(Some(b)),
            None => Err(ConfigError::BadMinSize),
        },
        _ => Err(ConfigError::BadMinSize),
    }
}

/// The `exclude` setting: a list of strings, or nothing.
pub fn exclude_setting(v: &ConfigValue) -> (r: Result<Vec<String>, ConfigError>)
    ensures
        r is Ok <==> exclude_ok(*v),
        r is Err ==> r->Err_0 == ConfigError::BadExclude,
        r is Ok ==> names(r->Ok_0@) == exclude_names(*v),
{
    match v {
        ConfigValue::Missing => {
            let out: Vec<String> = Vec::new();
            assert(names(out@) =~= exclude_names(*v));
            Ok(out)
        },
        ConfigValue::List(items) => {
            let mut out: Vec<String> = Vec::new();
            let mut i: usize = 0;
            while i < items.len()
                invariant
                    i <= items@.len(),
                    out@.len() == i,
                    forall|j: int| 0 <= j < i ==> (#[trigger] items@[j]) is Some,
                    exclude_ok(*v) == all_text(items@),
                    forall|j: int| 0 <= j < i ==> (#[trigger] out@[j])@ == items@[j]->0@,
                decreases items@.len() - i,
            {
                match &items[i] {
                    Some(s) => out.push(s.clone()),
                    None => {
                        assert(items@[i as int] is None);
                        return Err(ConfigError::BadExclude);
                    },
                }
                i = i + 1;
            }
            assert(names(out@) =~= item_texts(items@));
            Ok(out)
        },
        _ => Err(ConfigError::BadExclude),
    }
}

/// The configuration file's settings from the values under its three keys;
/// the first bad value, in the order `files`, `minsize`, `exclude`, is the error.
pub fn config_from_fields(files: &ConfigValue, minsize: &ConfigValue, exclude: &ConfigValue) -> (r: Result<FileConfig, ConfigError>)
    ensures
        files_spec(*files) is Err ==> r == Err::<FileConfig, ConfigError>(files_spec(*files)->Err_0),
        files_spec(*files) is Ok && min_size_spec(*minsize) is Err ==> r == Err::<FileConfig, ConfigError>(min_size_spec(*minsize)->Err_0),
        files_spec(*files) is Ok && min_size_spec(*minsize) is Ok && !exclude_ok(*exclude) ==> r == Err::<FileConfig, ConfigError>(ConfigError::BadExclude),
        r is Ok <==> files_spec(*files) is Ok && min_size_spec(*minsize) is Ok && exclude_ok(*exclude),
        r is Ok ==> r->Ok_0.files == files_spec(*files)->Ok_0
            && r->Ok_0.min_size == min_size_spec(*minsize)->Ok_0
            && names(r->Ok_0.exclude@) == exclude_names(*exclude),
{
    let files = match files_setting(files) {
        Ok(f) => f,
        Err(e) => return Err(e),
    };
    let min_size = match min_size_setting(minsize) {
        Ok(m) => m,
        Err(e) => return Err(e),
    };
    let exclude = match exclude_setting(exclude) {
        Ok(x) => x,
        Err(e) => return Err(e),
    };
    Ok(FileConfig { files, min_size, exclude })
}

/// The settings of a configuration document.
pub fn config_from_text(text: &str) -> (r: Result<FileConfig, ConfigError>)
    ensures
        ({
            let f = yaml_field_of(text@, "files"@);
            let m = yaml_field_of(text@, "minsize"@);
            let x = yaml_field_of(text@, "exclude"@);
            &&& (f is None || m is None || x is None) ==> r == Err::<FileConfig, ConfigError>(ConfigError::Malformed)
            &&& (f is Some && m is Some && x is Some) ==> (r is Ok <==> files_spec(f->0) is Ok && min_size_spec(m->0) is Ok && exclude_ok(x->0))
            &&& r is Ok ==> r->Ok_0.files == files_spec(f->0)->Ok_0
                && r->Ok_0.min_size == min_size_spec(m->0)->Ok_0
                && names(r->Ok_0.exclude@) == exclude_names(x->0)
        }),
{
    let f = yaml_field(text, "files");
    let m = yaml_field(text, "minsize");
    let x = yaml_field(text, "exclude");
    match (f, m, x) {
        (Some(f), Some(m), Some(x)) => config_from_fields(&f, &m, &x),
        _ => Err(ConfigError::Malformed),
    }
}

/// The settings of a configuration file that is absent: nothing set.
pub fn empty_config() -> (r: FileConfig)
    ensures
        r.files is None,
        r.min_size is None,
        r.exclude@.len() == 0,
{
    FileConfig { files: None, min_size: None, exclude: Vec::new() }
}

proof fn lemma_push_contains<A>(s: Seq<A>, x: A, y: A)
    ensures
        s.push(x).contains(y) <==> s.contains(y) || y == x,
{
    if s.contains(y) {
        let k = choose|k: int| 0 <= k < s.len() && s[k] == y;
        assert(s.push(x)[k] == y);
    }
    if y == x {
        assert(s.push(x)[s.len() as int] == y);
    }
    if s.push(x).contains(y) && y != x {
        let k = choose|k: int| 0 <= k < s.push(x).len() && s.push(x)[k] == y;
        assert(s[k] == y);
    }
}

spec fn pre_i(src: Seq<String>, i: int) -> Seq<Seq<char>> {
    names(src).subrange(0, i)
}

proof fn lemma_concat_contains<A>(a: Seq<A>, b: Seq<A>, y: A)
    ensures
        (a + b).contains(y) <==> a.contains(y) || b.contains(y),
{
    if a.contains(y) {
        let k = choose|k: int| 0 <= k < a.len() && a[k] == y;
        assert((a + b)[k] == y);
    }
    if b.contains(y) {
        let k = choose|k: int| 0 <= k < b.len() && b[k] == y;
        assert((a + b)[a.len() + k] == y);
    }
    if (a + b).contains(y) {
        let k = choose|k: int| 0 <= k < (a + b).len() && (a + b)[k] == y;
        if k < a.len() {
            assert(a[k] == y);
        } else {
            assert(b[k - a.len()] == y);
        }
    }
}

/// Appends to `out` each name of `src` that it does not hold yet.
fn add_unique(out: &mut Vec<String>, src: &Vec<String>)
    requires
        names(old(out)@).no_duplicates(),
    ensures
        names(final(out)@).no_duplicates(),
        forall|s: Seq<char>| names(final(out)@).contains(s) <==> names(old(out)@).contains(s) || names(src@).contains(s),
{
    let ghost start = names(out@);
    let mut i: usize = 0;
    while i < src.len()
        invariant
            i <= src@.len(),
            start == names(old(out)@),
            names(out@).no_duplicates(),
            forall|s: Seq<char>| names(out@).contains(s) <==> start.contains(s) || pre_i(src@, i as int).contains(s),
        decreases src@.len() - i,
    {
        let ghost before = names(out@);
        assert(forall|t: Seq<char>| before.contains(t) <==> start.contains(t) || pre_i(src@, i as int).contains(t));
        let ghost item = src@[i as int]@;
        let ghost pre = names(src@).subrange(0, i as int);
        let ghost next = names(src@).subrange(0, i as int + 1);
        assert(next =~= pre.push(item));
        assert(next == pre_i(src@, i as int + 1));
        if !name_in(out, &src[i]) {
            out.push(src[i].clone());
            assert(names(out@) =~= before.push(item));
            assert forall|j: int, k: int| 0 <= j < k < names(out@).len() implies names(out@)[j] != names(out@)[k] by {
                if k == names(out@).len() - 1 {
                    assert(before[j] == names(out@)[j]);
                }
            }
        } else {
            assert(names(out@) == before);
        }
        assert forall|t: Seq<char>| names(out@).contains(t) <==> start.contains(t) || next.contains(t) by {
            lemma_push_contains(pre, item, t);
            lemma_push_contains(before, item, t);
            assert(pre == pre_i(src@, i as int));
            assert(before.contains(t) <==> start.contains(t) || pre.contains(t));
        }
        i = i + 1;
    }
    assert(pre_i(src@, src@.len() as int) =~= names(src@));
    assert forall|t: Seq<char>| names(out@).contains(t) <==> names(old(out)@).contains(t) || names(src@).contains(t) by {
        assert(names(out@).contains(t) <==> start.contains(t) || pre_i(src@, src@.len() as int).contains(t));
    }
}

/// Merges the sources: the command line's number and size win over the
/// file's, which win over the defaults (one file, no size filter); the
/// excluded names of both are taken together, each once.
pub fn resolve(cli: CliOptions, file: FileConfig) -> (r: Settings)
    ensures
        r.n == (match cli.number {
            Some(n) => n,
            None => match file.files {
                Some(n) => n,
                None => DEFAULT_FILES,
            },
        }),
        r.min_size == (match cli.min_size {
            Some(s) => Some(s),
            None => file.min_size,
        }),
        names(r.exclude@).no_duplicates(),
        forall|s: Seq<char>| names(r.exclude@).contains(s) <==> names(cli.exclude@).contains(s) || names(file.exclude@).contains(s),
{
    let n = match cli.number {
        Some(n) => n,
        None => match file.files {
            Some(n) => n,
            None => DEFAULT_FILES,
        },
    };
    let min_size = match cli.min_size {
        Some(s) => Some(s),
        None => file.min_size,
    };
    let mut all = cli.exclude;
    let mut more = file.exclude;
    let ghost cli_names = names(all@);
    let ghost file_names = names(more@);
    all.append(&mut more);
    assert(names(all@) =~= cli_names + file_names);
    let mut exclude: Vec<String> = Vec::new();
    assert(names(exclude@) =~= Seq::<Seq<char>>::empty());
    let ghost empty = names(exclude@);
    add_unique(&mut exclude, &all);
    assert forall|s: Seq<char>| names(exclude@).contains(s) <==> cli_names.contains(s) || file_names.contains(s) by {
        assert(!empty.contains(s));
        lemma_concat_contains(cli_names, file_names, s);
    }
    Settings { n, min_size, exclude }
}

} // verus!
