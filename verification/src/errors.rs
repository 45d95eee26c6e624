use vstd::prelude::*;

verus! {

/// Every failure of the object store, the codec and the repository
/// locator, returned as a value, never raised.
#[derive(Clone, Copy, Debug, PartialEq, Eq, Structural)]
pub enum GitError {
    /// No metadata directory was found at or above the given path.
    NotARepository,
    /// The repository configuration file (or its required entry) is absent.
    ConfigMissing,
    /// `core.repositoryformatversion` is a number other than 0.
    UnsupportedFormatVersion(u32),
    /// The creation target exists but is not a directory.
    NotADirectory,
    /// The creation target is a directory that is not empty.
    NotEmpty,
    /// No space followed by a NUL was found in an object header.
    MalformedHeader,
    /// The declared length is not a string of decimal digits.
    MalformedLength,
    /// The declared length differs from the actual payload length.
    LengthMismatch,
    /// The header's type tag is none of blob, tree, commit, tag.
    UnknownObjectType,
    /// No loose object file exists for the given hash.
    ObjectNotFound,
    /// The loose object file could not be decompressed.
    CorruptObject,
    /// Any other underlying failure, such as an unreadable configuration.
    IoFailure,
}

impl GitError {
    /// A short human-readable description of the failure.
    pub fn message(&self) -> (r: String)
        ensures
            match self {
                GitError::NotARepository => r@ == "not a git repository"@,
                GitError::ConfigMissing => r@ == "configuration file missing"@,
                GitError::UnsupportedFormatVersion(_) => r@
                    == "unsupported repositoryformatversion"@,
                GitError::NotADirectory => r@ == "not a directory"@,
                GitError::NotEmpty => r@ == "directory is not empty"@,
                GitError::MalformedHeader => r@ == "malformed object: cannot read header"@,
                GitError::MalformedLength => r@ == "malformed object: cannot read size"@,
                GitError::LengthMismatch => r@ == "malformed object: bad length"@,
                GitError::UnknownObjectType => r@ == "unknown object type"@,
                GitError::ObjectNotFound => r@ == "object not found"@,
                GitError::CorruptObject => r@ == "corrupt object: decompression failed"@,
                GitError::IoFailure => r@ == "input/output failure"@,
            },
    {
        match self {
            GitError::NotARepository => String::from_str("not a git repository"),
            GitError::ConfigMissing => String::from_str("configuration file missing"),
            GitError::UnsupportedFormatVersion(_) => String::from_str(
                "unsupported repositoryformatversion",
            ),
            GitError::NotADirectory => String::from_str("not a directory"),
            GitError::NotEmpty => String::from_str("directory is not empty"),
            GitError::MalformedHeader => String::from_str("malformed object: cannot read header"),
            GitError::MalformedLength => String::from_str("malformed object: cannot read size"),
            GitError::LengthMismatch => String::from_str("malformed object: bad length"),
            GitError::UnknownObjectType => String::from_str("unknown object type"),
            GitError::ObjectNotFound => String::from_str("object not found"),
            GitError::CorruptObject => String::from_str("corrupt object: decompression failed"),
            GitError::IoFailure => String::from_str("input/output failure"),
        }
    }
}

} // verus!
