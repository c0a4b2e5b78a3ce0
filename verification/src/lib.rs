//! Verified core of a source-bundling tool: it decides which files under a
//! project root belong in a text bundle, which package each file belongs to,
//! and how the bundle is rendered, leaving file-system and clipboard access
//! to a thin unverified shell.
//!
//! Paths are handled as byte strings with `/` separators, exactly as the
//! version-control listing hands them over. The enumeration policy is fixed:
//! untracked files are included, ignored files are never shown (both decided
//! by the version-control listing the shell obtains), symlinks that the
//! listing names are treated as the files they point at, and a small
//! built-in deny-list keeps build output, version-control internals and
//! vendored dependency caches out of the bundle.

pub mod bundle;
pub mod deliver;
pub mod index;
pub mod manifest;
pub mod paths;
pub mod record;
pub mod resolve;
pub mod select;
pub mod sort;
