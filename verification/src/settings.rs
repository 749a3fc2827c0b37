//! The settings of the resolver, read from a YAML document, with a default
//! for each that the document does not give.

use vstd::prelude::*;
use yaml_rust::{ScanError, Yaml, YamlLoader};

verus! {

/// The settings of the resolver.
#[derive(Clone, Debug)]
pub struct DnsSettings {
    pub listening_port: u16,
    pub remote_lookup_port: u16,
    pub database_file: String,
    pub thread_count: u32,
    pub use_udp: bool,
    pub use_tcp: bool,
}

/// The settings over sequences.
pub struct SettingsModel {
    pub listening_port: u16,
    pub remote_lookup_port: u16,
    pub database_file: Seq<char>,
    pub thread_count: u32,
    pub use_udp: bool,
    pub use_tcp: bool,
}

impl View for DnsSettings {
    type V = SettingsModel;

    open spec fn view(&self) -> SettingsModel {
        SettingsModel {
            listening_port: self.listening_port,
            remote_lookup_port: self.remote_lookup_port,
            database_file: self.database_file@,
            thread_count: self.thread_count,
            use_udp: self.use_udp,
            use_tcp: self.use_tcp,
        }
    }
}

/// What a document gives for each setting, as far as it gives one.
#[derive(Clone, Debug)]
pub struct ConfigValues {
    pub listening_port: Option<i64>,
    pub remote_lookup_port: Option<i64>,
    pub thread_count: Option<i64>,
    pub use_udp: Option<bool>,
    pub use_tcp: Option<bool>,
    pub database_file: Option<String>,
}

/// What a document gives, over sequences.
pub struct ValuesModel {
    pub listening_port: Option<i64>,
    pub remote_lookup_port: Option<i64>,
    pub thread_count: Option<i64>,
    pub use_udp: Option<bool>,
    pub use_tcp: Option<bool>,
    pub database_file: Option<Seq<char>>,
}

impl View for ConfigValues {
    type V = ValuesModel;

    open spec fn view(&self) -> ValuesModel {
        ValuesModel {
            listening_port: self.listening_port,
            remote_lookup_port: self.remote_lookup_port,
            thread_count: self.thread_count,
            use_udp: self.use_udp,
            use_tcp: self.use_tcp,
            database_file: match self.database_file {
                Some(s) => Some(s@),
                None => None,
            },
        }
    }
}

/// Why settings could not be loaded.
#[derive(Clone, Copy, Debug, PartialEq, Eq, Structural)]
pub enum SettingsError {
    /// The text is no YAML.
    Syntax,
    /// The text holds no YAML document.
    NoDocument,
    /// The path of the database file could not be expanded.
    Expansion,
    /// None of the default configuration files exists.
    NoConfigFile,
}

/// A node of a YAML document, as yaml_rust holds it. Nothing is known of
/// what is inside but through the functions below.
#[verifier::external_type_specification]
#[verifier::external_body]
pub struct ExYaml(Yaml);

/// The error of yaml_rust's scanner. It is only told apart from success.
#[verifier::external_type_specification]
#[verifier::external_body]
pub struct ExScanError(ScanError);

/// The documents that a YAML text holds, or nothing for a text that is no YAML.
pub uninterp spec fn yaml_documents(contents: Seq<char>) -> Option<Seq<Yaml>>;

/// The value that a YAML node has under a key.
pub uninterp spec fn yaml_field(node: Yaml, key: Seq<char>) -> Yaml;

/// The integer that a YAML node is, if it is one.
pub uninterp spec fn yaml_integer(node: Yaml) -> Option<i64>;

/// The truth value that a YAML node is, if it is one.
pub uninterp spec fn yaml_boolean(node: Yaml) -> Option<bool>;

/// The string that a YAML node is, if it is one.
pub uninterp spec fn yaml_text(node: Yaml) -> Option<Seq<char>>;

/// `YamlLoader::load_from_str` of yaml_rust: the documents of a YAML text,
/// or the scanner's error. What the documents hold depends on the text alone.
#[verifier::external_body]
fn load_documents(contents: &str) -> (r: Result<Vec<Yaml>, ScanError>)
    ensures
        match r {
            Ok(docs) => yaml_documents(contents@) == Some(docs@),
            Err(_) => yaml_documents(contents@) is None,
        },
{
    YamlLoader::load_from_str(contents)
}

/// Indexing a `Yaml` node by a string key: the value under that key where
/// the node is a hash that has it, else yaml_rust's bad value. It does not
/// panic.
#[verifier::external_body]
fn field<'a>(node: &'a Yaml, key: &str) -> (r: &'a Yaml)
    ensures
        *r == yaml_field(*node, key@),
{
    &node[key]
}

/// `Yaml::as_i64`: the integer of an integer node, nothing for any other node.
#[verifier::external_body]
fn as_integer(node: &Yaml) -> (r: Option<i64>)
    ensures
        r == yaml_integer(*node),
{
    node.as_i64()
}

/// `Yaml::as_bool`: the value of a boolean node, nothing for any other node.
#[verifier::external_body]
fn as_boolean(node: &Yaml) -> (r: Option<bool>)
    ensures
        r == yaml_boolean(*node),
{
    node.as_bool()
}

/// `Yaml::as_str`: the string of a string node, nothing for any other node.
#[verifier::external_body]
fn as_text(node: &Yaml) -> (r: Option<String>)
    ensures
        match r {
            Some(s) => yaml_text(*node) == Some(s@),
            None => yaml_text(*node) is None,
        },
{
    node.as_str().map(str::to_owned)
}

/// `shellexpand::full`: the path with a leading tilde and the environment
/// variables in it expanded, or nothing where a variable cannot be looked
/// up. The result depends on the environment of the process.
#[verifier::external_body]
fn expand_path(path: &str) -> (r: Option<String>)
{
    shellexpand::full(path).ok().map(|expanded| expanded.into_owned())
}

/// The low 16 bits of `x`, as the unsigned number they are.
pub open spec fn wrap_u16(x: i64) -> u16 {
    (x as int % 65536) as u16
}

/// The low 32 bits of `x`, as the unsigned number they are.
pub open spec fn wrap_u32(x: i64) -> u32 {
    (x as int % 4294967296) as u32
}

/// The low 16 bits of `x`.
pub fn low_u16(x: i64) -> (r: u16)
    ensures
        r == wrap_u16(x),
{
    if x >= 0 {
        (x % 65536) as u16
    } else {
        (65535 - ((-(x + 1)) % 65536)) as u16
    }
}

/// The low 32 bits of `x`.
pub fn low_u32(x: i64) -> (r: u32)
    ensures
        r == wrap_u32(x),
{
    if x >= 0 {
        (x % 4294967296) as u32
    } else {
        (4294967295 - ((-(x + 1)) % 4294967296)) as u32
    }
}

/// What a YAML document gives for each setting.
pub open spec fn document_values(doc: Yaml) -> ValuesModel {
    ValuesModel {
        listening_port: yaml_integer(yaml_field(doc, "listening-port"@)),
        remote_lookup_port: yaml_integer(yaml_field(doc, "remote-lookup-port"@)),
        thread_count: yaml_integer(yaml_field(doc, "thread-count"@)),
        use_udp: yaml_boolean(yaml_field(doc, "use-udp"@)),
        use_tcp: yaml_boolean(yaml_field(doc, "use-tcp"@)),
        database_file: yaml_text(yaml_field(doc, "database-file"@)),
    }
}

/// What a YAML text gives for each setting: the values of its first
/// document. A text that is no YAML gives `Syntax`, one without a document
/// `NoDocument`.
pub open spec fn parsed_values(contents: Seq<char>) -> Result<ValuesModel, SettingsError> {
    match yaml_documents(contents) {
        None => Err(SettingsError::Syntax),
        Some(docs) => if docs.len() == 0 {
            Err(SettingsError::NoDocument)
        } else {
            Ok(document_values(docs[0]))
        },
    }
}

/// The path of the database file before expansion: the one given, or the
/// default in the user's configuration directory.
pub open spec fn database_path(values: ValuesModel) -> Seq<char> {
    match values.database_file {
        Some(path) => path,
        None => "~/.config/simpledns/simpledns.sqlite.db"@,
    }
}

/// The settings that the values give, with `database_file` as the expanded
/// path of the database file. A port or a thread count is the low bits of
/// the integer given. The defaults are port 53 to listen on, port 42069 for
/// upstream lookups, one thread, UDP on and TCP off.
pub open spec fn settings_from(values: ValuesModel, database_file: Seq<char>) -> SettingsModel {
    SettingsModel {
        listening_port: match values.listening_port {
            Some(x) => wrap_u16(x),
            None => 53,
        },
        remote_lookup_port: match values.remote_lookup_port {
            Some(x) => wrap_u16(x),
            None => 42069,
        },
        database_file,
        thread_count: match values.thread_count {
            Some(x) => wrap_u32(x),
            None => 1,
        },
        use_udp: match values.use_udp {
            Some(b) => b,
            None => true,
        },
        use_tcp: match values.use_tcp {
            Some(b) => b,
            None => false,
        },
    }
}

/// `r` is what loading the settings from a YAML text may give: the error of
/// parsing where the text cannot be parsed; else the settings that the
/// values give, with some expanded path of the database file, or
/// `Expansion`.
pub open spec fn loads(contents: Seq<char>, r: Result<DnsSettings, SettingsError>) -> bool {
    match parsed_values(contents) {
        Err(e) => r matches Err(err) && err == e,
        Ok(values) => match r {
            Ok(s) => s@ == settings_from(values, s@.database_file),
            Err(e) => e == SettingsError::Expansion,
        },
    }
}

/// What parsing returns, over sequences.
pub open spec fn values_result_view(r: Result<ConfigValues, SettingsError>) -> Result<
    ValuesModel,
    SettingsError,
> {
    match r {
        Ok(v) => Ok(v@),
        Err(e) => Err(e),
    }
}

impl ConfigValues {
    /// The values of a document that gives nothing.
    pub fn new() -> (v: ConfigValues)
        ensures
            v@ == (ValuesModel {
                listening_port: None,
                remote_lookup_port: None,
                thread_count: None,
                use_udp: None,
                use_tcp: None,
                database_file: None,
            }),
    {
        ConfigValues {
            listening_port: None,
            remote_lookup_port: None,
            thread_count: None,
            use_udp: None,
            use_tcp: None,
            database_file: None,
        }
    }

    /// The path of the database file before expansion.
    pub fn database_path(&self) -> (path: String)
        ensures
            path@ == database_path(self@),
    {
        match &self.database_file {
            Some(path) => path.clone(),
            None => "~/.config/simpledns/simpledns.sqlite.db".to_owned(),
        }
    }
}

impl DnsSettings {
    /// The settings that `values` give, with `database_file` as the
    /// expanded path of the database file.
    pub fn from_values(values: &ConfigValues, database_file: String) -> (s: DnsSettings)
        ensures
            s@ == settings_from(values@, database_file@),
    {
        DnsSettings {
            listening_port: match values.listening_port {
                Some(x) => low_u16(x),
                None => 53,
            },
            remote_lookup_port: match values.remote_lookup_port {
                Some(x) => low_u16(x),
                None => 42069,
            },
            database_file,
            thread_count: match values.thread_count {
                Some(x) => low_u32(x),
                None => 1,
            },
            use_udp: match values.use_udp {
                Some(b) => b,
                None => true,
            },
            use_tcp: match values.use_tcp {
                Some(b) => b,
                None => false,
            },
        }
    }

    /// What a YAML text gives for each setting.
    pub fn parse(contents: &str) -> (r: Result<ConfigValues, SettingsError>)
        ensures
            values_result_view(r) == parsed_values(contents@),
    {
        let docs = match load_documents(contents) {
            Ok(docs) => docs,
            Err(_) => {
                return Err(SettingsError::Syntax);
            },
        };
        if docs.len() == 0 {
            return Err(SettingsError::NoDocument);
        }
        let doc = &docs[0];
        Ok(
            ConfigValues {
                listening_port: as_integer(field(doc, "listening-port")),
                remote_lookup_port: as_integer(field(doc, "remote-lookup-port")),
                thread_count: as_integer(field(doc, "thread-count")),
                use_udp: as_boolean(field(doc, "use-udp")),
                use_tcp: as_boolean(field(doc, "use-tcp")),
                database_file: as_text(field(doc, "database-file")),
            },
        )
    }

    /// The settings that a configuration file gives, from the text of the
    /// file. The path of the database file is expanded in the environment of
    /// the process; where that fails the result is `Expansion`.
    pub fn load_from_file(contents: &str) -> (r: Result<DnsSettings, SettingsError>)
        ensures
            loads(contents@, r),
    {
        let values = match Self::parse(contents) {
            Ok(values) => values,
            Err(e) => {
                return Err(e);
            },
        };
        let path = values.database_path();
        match expand_path(path.as_str()) {
            Some(database_file) => Ok(Self::from_values(&values, database_file)),
            None => Err(SettingsError::Expansion),
        }
    }

    /// The places where a configuration file is looked for, in the order in
    /// which they are tried.
    pub fn default_files() -> (files: Vec<String>)
        ensures
            files@.len() == 3,
            files@[0]@ == "./dns.config.yaml"@,
            files@[1]@ == "~/.config/simpledns/dns.config.yaml"@,
            files@[2]@ == "/etc/simpledns/dns.config.yaml"@,
    {
        let mut files: Vec<String> = Vec::new();
        files.push("./dns.config.yaml".to_owned());
        files.push("~/.config/simpledns/dns.config.yaml".to_owned());
        files.push("/etc/simpledns/dns.config.yaml".to_owned());
        files
    }

    /// The first of the candidates that is there: `found` holds, for each
    /// candidate in order, its text if it exists.
    pub fn choose_file(found: &Vec<Option<String>>) -> (r: Option<usize>)
        ensures
            match r {
                Some(i) => i < found.len() && found@[i as int] is Some && forall|j: int|
                    0 <= j < i ==> found@[j] is None,
                None => forall|j: int| 0 <= j < found.len() ==> found@[j] is None,
            },
    {
        let mut i: usize = 0;
        while i < found.len()
            invariant
                i <= found.len(),
                forall|j: int| 0 <= j < i ==> found@[j] is None,
            decreases found.len() - i,
        {
            if found[i].is_some() {
                return Some(i);
            }
            i = i + 1;
        }
        None
    }

    /// The settings from the first configuration file that exists: `found`
    /// holds, for each candidate in order, its text if it exists. Fails with
    /// `NoConfigFile` where none exists.
    pub fn load_default(found: &Vec<Option<String>>) -> (r: Result<DnsSettings, SettingsError>)
        ensures
            (forall|j: int| 0 <= j < found.len() ==> found@[j] is None) ==> r == Err::<
                DnsSettings,
                SettingsError,
            >(SettingsError::NoConfigFile),
            forall|i: int|
                0 <= i < found.len() && (#[trigger] found@[i]) is Some && (forall|j: int|
                    0 <= j < i ==> found@[j] is None) ==> loads(found@[i]->Some_0@, r),
    {
        match Self::choose_file(found) {
            None => Err(SettingsError::NoConfigFile),
            Some(i) => {
                let r = match &found[i] {
                    Some(contents) => Self::load_from_file(contents.as_str()),
                    None => Err(SettingsError::NoConfigFile),
                };
                assert forall|k: int|
                    0 <= k < found.len() && (#[trigger] found@[k]) is Some && (forall|j: int|
                        0 <= j < k ==> found@[j] is None) implies k == i by {
                    if k < i {
                        assert(found@[k] is None);
                    }
                    if i < k {
                        assert(found@[i as int] is None);
                    }
                }
                r
            },
        }
    }
}

} // verus!
