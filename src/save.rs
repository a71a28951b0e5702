//! Save files and the presence records built from them.
use vstd::prelude::*;

verus! {

/// One entry of a directory listing, as the host reads it from disk.
pub struct Entry {
    /// The entry's base name.
    pub name: String,
    /// Last-modified time, in nanoseconds since the Unix epoch.
    pub modified: u64,
    /// Whether the entry is a directory.
    pub is_dir: bool,
}

/// `p` is a prefix of `s`.
pub open spec fn is_prefix_of(p: Seq<char>, s: Seq<char>) -> bool {
    p.len() <= s.len() && s.subrange(0, p.len() as int) == p
}

/// `p` is a suffix of `s`.
pub open spec fn is_suffix_of(p: Seq<char>, s: Seq<char>) -> bool {
    p.len() <= s.len() && s.subrange(s.len() - p.len(), s.len() as int) == p
}

/// A base name of a save file: it starts with `Saved` and its extension is
/// `broguesave`. Given the prefix, the extension (the part after the last
/// dot) is `broguesave` exactly when the name ends in `.broguesave`.
pub open spec fn is_save_name(name: Seq<char>) -> bool {
    is_prefix_of("Saved"@, name) && is_suffix_of(".broguesave"@, name)
}

/// A listing entry that qualifies as a save file: a non-directory with a save name.
pub open spec fn qualifies(e: Entry) -> bool {
    !e.is_dir && is_save_name(e.name@)
}

/// Whether `p` is a prefix of `s`.
pub fn has_prefix(s: &str, p: &str) -> (r: bool)
    ensures
        r == is_prefix_of(p@, s@),
{
    let n = s.unicode_len();
    let m = p.unicode_len();
    if m > n {
        return false;
    }
    let mut i: usize = 0;
    while i < m
        invariant
            m == p@.len(),
            n == s@.len(),
            m <= n,
            i <= m,
            forall|k: int| 0 <= k < i ==> s@[k] == p@[k],
        decreases m - i,
    {
        if s.get_char(i) != p.get_char(i) {
            assert(s@.subrange(0, m as int)[i as int] != p@[i as int]);
            return false;
        }
        i = i + 1;
    }
    assert(s@.subrange(0, m as int) =~= p@);
    true
}

/// Whether `p` is a suffix of `s`.
pub fn has_suffix(s: &str, p: &str) -> (r: bool)
    ensures
        r == is_suffix_of(p@, s@),
{
    let n = s.unicode_len();
    let m = p.unicode_len();
    if m > n {
        return false;
    }
    let d: usize = n - m;
    let mut i: usize = 0;
    while i < m
        invariant
            m == p@.len(),
            n == s@.len(),
            m <= n,
            d == n - m,
            i <= m,
            forall|k: int| 0 <= k < i ==> s@[d + k] == p@[k],
        decreases m - i,
    {
        if s.get_char(d + i) != p.get_char(i) {
            assert(s@.subrange(d as int, n as int)[i as int] != p@[i as int]);
            return false;
        }
        i = i + 1;
    }
    assert(s@.subrange(d as int, n as int) =~= p@);
    true
}

/// Whether a listing entry qualifies as a save file.
pub fn is_brogue_save(name: &str, is_dir: bool) -> (r: bool)
    ensures
        r == (!is_dir && is_save_name(name@)),
{
    !is_dir && has_prefix(name, "Saved") && has_suffix(name, ".broguesave")
}

/// A qualifying save file on one side: its base name and last-modified time.
pub struct SaveFile {
    pub name: String,
    pub modified: u64,
}

/// Where a save is present, keyed by its base name.
pub enum Save {
    /// Only in the save directory.
    OriginalFileOnly(SaveFile),
    /// Only in the backup directory.
    BackupFileOnly(SaveFile),
    /// In both: the save directory's file, then the backup directory's.
    Both(SaveFile, SaveFile),
}

impl Save {
    /// The base name that identifies the record.
    pub open spec fn name(self) -> Seq<char> {
        match self {
            Save::OriginalFileOnly(f) => f.name@,
            Save::BackupFileOnly(f) => f.name@,
            Save::Both(o, _) => o.name@,
        }
    }

    /// The recency timestamp: a file's modification time, or for a pair
    /// the later of the two.
    pub open spec fn recency(self) -> u64 {
        match self {
            Save::OriginalFileOnly(f) => f.modified,
            Save::BackupFileOnly(f) => f.modified,
            Save::Both(o, b) => if o.modified >= b.modified {
                o.modified
            } else {
                b.modified
            },
        }
    }

    /// The record's base name.
    pub fn key(&self) -> (r: String)
        ensures
            r@ == self.name(),
    {
        match self {
            Save::OriginalFileOnly(f) => f.name.clone(),
            Save::BackupFileOnly(f) => f.name.clone(),
            Save::Both(o, _) => o.name.clone(),
        }
    }

    /// The record's recency timestamp, by which a state is ordered.
    pub fn sort_by(&self) -> (r: u64)
        ensures
            r == self.recency(),
    {
        match self {
            Save::OriginalFileOnly(f) => f.modified,
            Save::BackupFileOnly(f) => f.modified,
            Save::Both(o, b) => if o.modified >= b.modified {
                o.modified
            } else {
                b.modified
            },
        }
    }

    /// The four-letter code of the record's variant.
    pub open spec fn code_spec(self) -> Seq<char> {
        match self {
            Save::OriginalFileOnly(_) => "SAVE"@,
            Save::BackupFileOnly(_) => "BACK"@,
            Save::Both(_, _) => "SYNC"@,
        }
    }

    /// The arrows of the record's variant.
    pub open spec fn arrows_spec(self) -> Seq<char> {
        match self {
            Save::OriginalFileOnly(_) => "S<-xB"@,
            Save::BackupFileOnly(_) => "Sx->B"@,
            Save::Both(_, _) => "S<->B"@,
        }
    }

    /// A four-letter code for the record's variant.
    pub fn code(&self) -> (r: &'static str)
        ensures
            r@ == self.code_spec(),
    {
        match self {
            Save::OriginalFileOnly(_) => "SAVE",
            Save::BackupFileOnly(_) => "BACK",
            Save::Both(_, _) => "SYNC",
        }
    }

    /// Arrows that show which side holds the file and which way it goes.
    pub fn arrows(&self) -> (r: &'static str)
        ensures
            r@ == self.arrows_spec(),
    {
        match self {
            Save::OriginalFileOnly(_) => "S<-xB",
            Save::BackupFileOnly(_) => "Sx->B",
            Save::Both(_, _) => "S<->B",
        }
    }

    /// The record as one line: code, arrows and base name, separated by spaces.
    pub fn label(&self) -> (r: String)
        ensures
            r@ == self.code_spec() + " "@ + self.arrows_spec() + " "@ + self.name(),
    {
        let mut r = String::from_str(self.code());
        r.append(" ");
        r.append(self.arrows());
        r.append(" ");
        let name = self.key();
        r.append(name.as_str());
        r
    }
}

/// The reconciliation state: presence records ordered by recency.
pub struct State {
    pub saves: Vec<Save>,
}

impl State {
    /// The empty state.
    pub fn new() -> (r: State)
        ensures
            r.saves@.len() == 0,
    {
        State { saves: Vec::new() }
    }
}

} // verus!
