//! The errors that an operation on the configuration can end with.
use vstd::prelude::*;

verus! {

/// How an operation failed.
#[derive(Debug)]
pub enum ConfigError {
    /// No project directory holding the configuration was found, searching up from the given path.
    ConfigDirNotFound(String),
    /// The project directory exists but holds no configuration document.
    ConfigFileNotFound,
    /// The named section does not exist.
    FeatureNotFound(String),
    /// The named key does not exist in its section.
    KeyNotFound(String),
    /// An array operation met a key that holds a scalar.
    NotAnArray(String),
    /// Reading or writing the backing store failed.
    IoError(String),
    /// The document could not be parsed.
    TomlParseError(String),
    /// The request itself is malformed.
    InvalidOperation(String),
}

/// The view of a [`ConfigError`]: its variant, with the text it carries.
pub enum Fault {
    ConfigDirNotFound(Seq<char>),
    ConfigFileNotFound,
    FeatureNotFound(Seq<char>),
    KeyNotFound(Seq<char>),
    NotAnArray(Seq<char>),
    IoError(Seq<char>),
    TomlParseError(Seq<char>),
    InvalidOperation(Seq<char>),
}

impl View for ConfigError {
    type V = Fault;

    open spec fn view(&self) -> Fault {
        match self {
            ConfigError::ConfigDirNotFound(s) => Fault::ConfigDirNotFound(s@),
            ConfigError::ConfigFileNotFound => Fault::ConfigFileNotFound,
            ConfigError::FeatureNotFound(s) => Fault::FeatureNotFound(s@),
            ConfigError::KeyNotFound(s) => Fault::KeyNotFound(s@),
            ConfigError::NotAnArray(s) => Fault::NotAnArray(s@),
            ConfigError::IoError(s) => Fault::IoError(s@),
            ConfigError::TomlParseError(s) => Fault::TomlParseError(s@),
            ConfigError::InvalidOperation(s) => Fault::InvalidOperation(s@),
        }
    }
}

/// The text around the value that a message carries: before it, after it.
pub open spec fn frame(f: Fault) -> (Seq<char>, Seq<char>) {
    match f {
        Fault::ConfigDirNotFound(_) => (
            "错误：未能找到 .c2rust 目录。\n搜索起始路径："@,
            "\n已向上遍历至根目录但未找到项目根目录。\n请在项目根目录创建 .c2rust 目录，或从项目目录内运行此工具。"@,
        ),
        Fault::ConfigFileNotFound => ("Error: config.toml file not found in the .c2rust directory"@, ""@),
        Fault::FeatureNotFound(_) => ("Error: feature '"@, "' not found in configuration"@),
        Fault::KeyNotFound(_) => ("Error: key '"@, "' not found"@),
        Fault::NotAnArray(_) => ("Invalid operation: '"@, "' is not an array"@),
        Fault::IoError(_) => ("IO error: "@, ""@),
        Fault::TomlParseError(_) => ("TOML parse error: "@, ""@),
        Fault::InvalidOperation(_) => ("Invalid operation: "@, ""@),
    }
}

/// The value that a fault carries; empty where it carries none.
pub open spec fn detail(f: Fault) -> Seq<char> {
    match f {
        Fault::ConfigDirNotFound(s) => s,
        Fault::ConfigFileNotFound => Seq::empty(),
        Fault::FeatureNotFound(s) => s,
        Fault::KeyNotFound(s) => s,
        Fault::NotAnArray(s) => s,
        Fault::IoError(s) => s,
        Fault::TomlParseError(s) => s,
        Fault::InvalidOperation(s) => s,
    }
}

/// The message that reports `f`.
pub open spec fn message_of(f: Fault) -> Seq<char> {
    frame(f).0 + detail(f) + frame(f).1
}

impl ConfigError {
    /// The message that reports this error to a user.
    pub fn message(&self) -> (r: String)
        ensures
            r@ == message_of(self@),
    {
        let (before, value, after) = match self {
            ConfigError::ConfigDirNotFound(p) => (
                "错误：未能找到 .c2rust 目录。\n搜索起始路径：",
                p.as_str(),
                "\n已向上遍历至根目录但未找到项目根目录。\n请在项目根目录创建 .c2rust 目录，或从项目目录内运行此工具。",
            ),
            ConfigError::ConfigFileNotFound => (
                "Error: config.toml file not found in the .c2rust directory",
                "",
                "",
            ),
            ConfigError::FeatureNotFound(s) => ("Error: feature '", s.as_str(), "' not found in configuration"),
            ConfigError::KeyNotFound(s) => ("Error: key '", s.as_str(), "' not found"),
            ConfigError::NotAnArray(s) => ("Invalid operation: '", s.as_str(), "' is not an array"),
            ConfigError::IoError(s) => ("IO error: ", s.as_str(), ""),
            ConfigError::TomlParseError(s) => ("TOML parse error: ", s.as_str(), ""),
            ConfigError::InvalidOperation(s) => ("Invalid operation: ", s.as_str(), ""),
        };
        proof {
            reveal_strlit("");
        }
        assert(before@ == frame(self@).0 && value@ == detail(self@) && after@ == frame(self@).1);
        let mut r = String::from_str(before);
        r.append(value);
        r.append(after);
        r
    }
}

} // verus!
