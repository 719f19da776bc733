use vstd::prelude::*;

use vstd::string::StringExecFns;

verus! {

/// Which namespace loaded data goes into.
#[derive(Debug)]
pub enum LoadNamespace {
    /// The unnamed "root" namespace (meant for built-in types).
    Root,
    /// The name of the folder the file is in.
    Auto,
    /// A given namespace (the most common choice).
    Specific(String),
}

/// What loaded data is named.
#[derive(Debug)]
pub enum LoadName {
    /// The file's name, without its extension (usually the right choice).
    Auto,
    /// A given name (which fails when more than one file is loaded).
    Specific(String),
}

/// Where loaded data goes and what it is called.
#[derive(Debug)]
pub struct LoadOptions {
    pub namespace: LoadNamespace,
    pub name: LoadName,
}

impl Default for LoadOptions {
    fn default() -> (r: LoadOptions)
        ensures
            r.namespace == LoadNamespace::Auto,
            r.name == LoadName::Auto,
    {
        LoadOptions { namespace: LoadNamespace::Auto, name: LoadName::Auto }
    }
}

impl LoadOptions {
    pub fn new(namespace: LoadNamespace, name: LoadName) -> (r: Self)
        ensures
            r.namespace == namespace,
            r.name == name,
    {
        LoadOptions { namespace, name }
    }
}

/// The file formats that data can be read from.
#[derive(Debug, Clone, Copy, PartialEq, Eq, Structural)]
pub enum FileType {
    YAML,
    JSON,
    CSV,
    RON,
}

/// The extension of the last component of a path, as std's `Path` finds it
/// (taken lossily as text); `None` when it has none.
pub uninterp spec fn path_extension(path: Seq<char>) -> Option<Seq<char>>;

/// The extension of a path.
///
/// Calls std's `Path::extension` and takes the result as text with
/// `to_string_lossy`. The contract claims only that the result is the named
/// function of the path.
#[verifier::external_body]
pub(crate) fn extension_of(path: &str) -> (r: Option<String>)
    ensures
        match path_extension(path@) {
            Some(e) => r is Some && r->0@ == e,
            None => r is None,
        },
{
    std::path::Path::new(path).extension().map(|e| e.to_string_lossy().to_string())
}

/// The format named by an extension.
pub open spec fn file_type_of(ext: Seq<char>) -> Option<FileType> {
    if ext == "yaml"@ || ext == "yml"@ {
        Some(FileType::YAML)
    } else if ext == "json"@ {
        Some(FileType::JSON)
    } else if ext == "csv"@ {
        Some(FileType::CSV)
    } else if ext == "ron"@ {
        Some(FileType::RON)
    } else {
        None
    }
}

impl FileType {
    /// The format of a file, from its extension (`yaml` or `yml`, `json`,
    /// `csv`, `ron`); `None` for any other.
    pub fn from_filename(name: &str) -> (r: Option<Self>)
        ensures
            r == match path_extension(name@) {
                Some(e) => file_type_of(e),
                None => None,
            },
    {
        let ext = match extension_of(name) {
            Some(e) => e,
            None => return None,
        };
        if ext == String::from_str("yaml") || ext == String::from_str("yml") {
            Some(FileType::YAML)
        } else if ext == String::from_str("json") {
            Some(FileType::JSON)
        } else if ext == String::from_str("csv") {
            Some(FileType::CSV)
        } else if ext == String::from_str("ron") {
            Some(FileType::RON)
        } else {
            None
        }
    }
}

} // verus!
