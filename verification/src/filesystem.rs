//! Permission-bit formatting for the long listing: the decoded mode word of
//! a directory entry and the nine-character `rwx` column text it prints as.
//!
//! Reading a mode word from disk is the caller's side; everything here works
//! on the plain bits.

use vstd::prelude::*;

verus! {

use vstd::string::StringExecFns;

/// Mode-word bits, as the POSIX mode lays them out.
pub const USER_READ: u32 = 0o400;

pub const USER_WRITE: u32 = 0o200;

pub const USER_EXECUTE: u32 = 0o100;

pub const GROUP_READ: u32 = 0o40;

pub const GROUP_WRITE: u32 = 0o20;

pub const GROUP_EXECUTE: u32 = 0o10;

pub const OTHER_READ: u32 = 0o4;

pub const OTHER_WRITE: u32 = 0o2;

pub const OTHER_EXECUTE: u32 = 0o1;

pub const STICKY: u32 = 0o1000;

pub const SETGID: u32 = 0o2000;

pub const SETUID: u32 = 0o4000;

/// The decoded permission flags of one directory entry.
#[derive(Copy, Clone, PartialEq, Eq, Structural)]
pub struct Permission {
    pub is_file: bool,
    pub user_read: bool,
    pub user_write: bool,
    pub user_execute: bool,
    pub group_read: bool,
    pub group_write: bool,
    pub group_execute: bool,
    pub other_read: bool,
    pub other_write: bool,
    pub other_execute: bool,
    pub sticky: bool,
    pub setgid: bool,
    pub setuid: bool,
}

/// A flag prints as its letter when set, as a dash when clear.
pub open spec fn flag_seq(set: bool, letter: Seq<char>) -> Seq<char> {
    if set {
        letter
    } else {
        "-"@
    }
}

impl Permission {
    /// The character of the user execute column: `x` for plain execute, `S`
    /// whenever the set-user-id bit is on, `-` otherwise.
    pub open spec fn user_execute_seq(self, is_file: bool) -> Seq<char> {
        if self.setuid {
            "S"@
        } else if self.user_execute {
            "x"@
        } else {
            "-"@
        }
    }

    /// The character of the group execute column: `s` when both execute and
    /// set-group-id are on, `S` for set-group-id alone, `x` for execute
    /// alone, `-` otherwise.
    pub open spec fn group_execute_seq(self) -> Seq<char> {
        if self.group_execute && self.setgid {
            "s"@
        } else if self.setgid {
            "S"@
        } else if self.group_execute {
            "x"@
        } else {
            "-"@
        }
    }

    /// The character of the other execute column: `t` when both execute and
    /// sticky are on, `T` for sticky alone, `x` for execute alone, `-`
    /// otherwise.
    pub open spec fn other_execute_seq(self) -> Seq<char> {
        if self.other_execute && self.sticky {
            "t"@
        } else if self.sticky {
            "T"@
        } else if self.other_execute {
            "x"@
        } else {
            "-"@
        }
    }

    pub fn user_execute_bit(&self, is_file: bool) -> (r: &str)
        ensures
            r@ == self.user_execute_seq(is_file),
    {
        match (self.user_execute, self.setuid, is_file) {
            (false, false, _) => "-",
            (true, false, false) => "x",
            (true, false, true) => "x",
            (false, true, _) => "S",
            (true, true, false) => "S",
            (true, true, true) => "S",
        }
    }

    pub fn group_execute_bit(&self) -> (r: &str)
        ensures
            r@ == self.group_execute_seq(),
    {
        match (self.group_execute, self.setgid) {
            (false, false) => "-",
            (true, false) => "x",
            (false, true) => "S",
            (true, true) => "s",
        }
    }

    pub fn other_execute_bit(&self) -> (r: &str)
        ensures
            r@ == self.other_execute_seq(),
    {
        match (self.other_execute, self.sticky) {
            (false, false) => "-",
            (true, false) => "x",
            (false, true) => "T",
            (true, true) => "t",
        }
    }

    /// The nine `rwx` columns of the long listing, user, group, other.
    pub open spec fn mode_string_spec(self) -> Seq<char> {
        flag_seq(self.user_read, "r"@) + flag_seq(self.user_write, "w"@) + self.user_execute_seq(
            self.is_file,
        ) + flag_seq(self.group_read, "r"@) + flag_seq(self.group_write, "w"@)
            + self.group_execute_seq() + flag_seq(self.other_read, "r"@) + flag_seq(
            self.other_write,
            "w"@,
        ) + self.other_execute_seq()
    }

    /// Format the permission flags as their nine-character column text.
    pub fn mode_string(&self) -> (out: String)
        ensures
            out@ == self.mode_string_spec(),
    {
        let mut out = String::new();
        out.append(if self.user_read {
            "r"
        } else {
            "-"
        });
        out.append(if self.user_write {
            "w"
        } else {
            "-"
        });
        out.append(self.user_execute_bit(self.is_file));
        out.append(if self.group_read {
            "r"
        } else {
            "-"
        });
        out.append(if self.group_write {
            "w"
        } else {
            "-"
        });
        out.append(self.group_execute_bit());
        out.append(if self.other_read {
            "r"
        } else {
            "-"
        });
        out.append(if self.other_write {
            "w"
        } else {
            "-"
        });
        out.append(self.other_execute_bit());
        proof {
            assert(out@ =~= self.mode_string_spec());
        }
        out
    }
}

/// A source of decoded permission flags.
pub trait FileSystem {
    /// The flags this entry carries.
    spec fn permission_spec(&self) -> Permission;

    /// Produce the entry's permission flags.
    fn permission(&self) -> (p: Permission)
        ensures
            p == self.permission_spec(),
    ;
}

/// The mode word of one entry together with whether it is a regular file:
/// the plain values the permission decoding reads.
#[derive(Copy, Clone, PartialEq, Eq, Structural)]
pub struct FileMode {
    pub mode: u32,
    pub is_file: bool,
}

impl FileSystem for FileMode {
    open spec fn permission_spec(&self) -> Permission {
        Permission {
            is_file: self.is_file,
            user_read: self.mode & USER_READ == USER_READ,
            user_write: self.mode & USER_WRITE == USER_WRITE,
            user_execute: self.mode & USER_EXECUTE == USER_EXECUTE,
            group_read: self.mode & GROUP_READ == GROUP_READ,
            group_write: self.mode & GROUP_WRITE == GROUP_WRITE,
            group_execute: self.mode & GROUP_EXECUTE == GROUP_EXECUTE,
            other_read: self.mode & OTHER_READ == OTHER_READ,
            other_write: self.mode & OTHER_WRITE == OTHER_WRITE,
            other_execute: self.mode & OTHER_EXECUTE == OTHER_EXECUTE,
            sticky: self.mode & STICKY == STICKY,
            setgid: self.mode & SETGID == SETGID,
            setuid: self.mode & SETUID == SETUID,
        }
    }

    fn permission(&self) -> (p: Permission) {
        Permission {
            is_file: self.is_file,
            user_read: self.mode & USER_READ == USER_READ,
            user_write: self.mode & USER_WRITE == USER_WRITE,
            user_execute: self.mode & USER_EXECUTE == USER_EXECUTE,
            group_read: self.mode & GROUP_READ == GROUP_READ,
            group_write: self.mode & GROUP_WRITE == GROUP_WRITE,
            group_execute: self.mode & GROUP_EXECUTE == GROUP_EXECUTE,
            other_read: self.mode & OTHER_READ == OTHER_READ,
            other_write: self.mode & OTHER_WRITE == OTHER_WRITE,
            other_execute: self.mode & OTHER_EXECUTE == OTHER_EXECUTE,
            sticky: self.mode & STICKY == STICKY,
            setgid: self.mode & SETGID == SETGID,
            setuid: self.mode & SETUID == SETUID,
        }
    }
}

/// What kind of entry a line of the long listing describes.
#[derive(Copy, Clone, PartialEq, Eq, Structural)]
pub enum EntryKind {
    Directory,
    Regular,
    Other,
}

/// The type column of the long listing.
pub open spec fn type_str_spec(kind: EntryKind) -> Seq<char> {
    match kind {
        EntryKind::Directory => "d"@,
        EntryKind::Regular => "-"@,
        EntryKind::Other => "l"@,
    }
}

/// The one-character type column: `d` for a directory, `-` for a regular
/// file, `l` for anything else.
pub fn type_str(kind: EntryKind) -> (r: &'static str)
    ensures
        r@ == type_str_spec(kind),
{
    match kind {
        EntryKind::Directory => "d",
        EntryKind::Regular => "-",
        EntryKind::Other => "l",
    }
}

} // verus!
