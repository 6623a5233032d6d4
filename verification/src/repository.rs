//! The rules that give a directory its access level, and the repository that
//! holds them.

use vstd::prelude::*;
use vstd::hash_map::StringHashMap;
use crate::path::{directory_name, file_name};
use crate::permissions::Permissions;
use crate::text::same_text;

verus! {

/// The built-in table: the level of each canonical directory name, and
/// `None` for every other name. Names are compared character by character,
/// with no folding of case.
pub open spec fn builtin_level(name: Seq<char>) -> Option<Permissions> {
    if name == "divine_texts"@ || name == "holy_writings"@ || name == "apocrypha"@ {
        Some(Permissions::Divine)
    } else if name == "royal_archives"@ || name == "kings_chronicles"@ || name
        == "pseudepigrapha"@ {
        Some(Permissions::Royal)
    } else if name == "common_records"@ || name == "census"@ || name == "targumim"@ || name
        == "mishnah"@ || name == "gemara"@ {
        Some(Permissions::Common)
    } else {
        None
    }
}

/// The level of a directory name under the built-in table and a mapping of
/// overrides: the built-in table is asked first, the overrides only where it
/// has no entry.
pub open spec fn resolve(overrides: Map<Seq<char>, Permissions>, name: Seq<char>) -> Option<
    Permissions,
> {
    match builtin_level(name) {
        Some(level) => Some(level),
        None => if overrides.contains_key(name) {
            Some(overrides[name])
        } else {
            None
        },
    }
}

/// The level of the directory at `path`: that of its name.
pub open spec fn directory_level(overrides: Map<Seq<char>, Permissions>, path: Seq<char>) -> Option<
    Permissions,
> {
    resolve(overrides, directory_name(path))
}

/// The overrides that every new repository starts with.
pub open spec fn initial_overrides() -> Map<Seq<char>, Permissions> {
    Map::<Seq<char>, Permissions>::empty().insert("apocrypha"@, Permissions::Divine).insert(
        "pseudepigrapha"@,
        Permissions::Royal,
    ).insert("targumim"@, Permissions::Common).insert("mishnah"@, Permissions::Common).insert(
        "gemara"@,
        Permissions::Common,
    )
}

/// A base path together with the rules by which the directories under it are
/// classified.
pub struct TextRepository {
    base_path: String,
    permissions: StringHashMap<Permissions>,
}

impl TextRepository {
    /// The path of the directory at which the repository is rooted.
    pub closed spec fn base(&self) -> Seq<char> {
        self.base_path@
    }

    /// The overrides: the levels of the names that the built-in table lacks.
    pub closed spec fn overrides(&self) -> Map<Seq<char>, Permissions> {
        self.permissions@
    }

    /// A repository rooted at `base_path`, with the initial overrides.
    pub fn new(base_path: &str) -> (repo: Self)
        ensures
            repo.base() == base_path@,
            repo.overrides() == initial_overrides(),
    {
        let mut permissions = StringHashMap::new();
        permissions.insert("apocrypha".to_owned(), Permissions::Divine);
        permissions.insert("pseudepigrapha".to_owned(), Permissions::Royal);
        permissions.insert("targumim".to_owned(), Permissions::Common);
        permissions.insert("mishnah".to_owned(), Permissions::Common);
        permissions.insert("gemara".to_owned(), Permissions::Common);
        TextRepository { base_path: base_path.to_owned(), permissions }
    }

    /// The path of the directory at which the repository is rooted.
    pub fn base_path(&self) -> (path: &str)
        ensures
            path@ == self.base(),
    {
        self.base_path.as_str()
    }

    /// Records `level` as the override for `name`, in place of an earlier
    /// override for that name if there was one. The built-in table is not
    /// touched, so this changes the level of no name that it holds.
    pub fn set_override(&mut self, name: &str, level: Permissions)
        ensures
            final(self).base() == old(self).base(),
            final(self).overrides() == old(self).overrides().insert(name@, level),
    {
        self.permissions.insert(name.to_owned(), level);
    }

    /// Looks `name` up in the built-in table.
    pub fn builtin(name: &str) -> (level: Option<Permissions>)
        ensures
            level == builtin_level(name@),
    {
        if same_text(name, "divine_texts") || same_text(name, "holy_writings") || same_text(
            name,
            "apocrypha",
        ) {
            Some(Permissions::Divine)
        } else if same_text(name, "royal_archives") || same_text(name, "kings_chronicles")
            || same_text(name, "pseudepigrapha") {
            Some(Permissions::Royal)
        } else if same_text(name, "common_records") || same_text(name, "census") || same_text(
            name,
            "targumim",
        ) || same_text(name, "mishnah") || same_text(name, "gemara") {
            Some(Permissions::Common)
        } else {
            None
        }
    }

    /// The level of a directory called `name`, or `None` where no rule names
    /// it: such a directory is left as it is.
    pub fn classify(&self, name: &str) -> (level: Option<Permissions>)
        ensures
            level == resolve(self.overrides(), name@),
    {
        match Self::builtin(name) {
            Some(level) => Some(level),
            None => match self.permissions.get(name) {
                Some(level) => Some(*level),
                None => None,
            },
        }
    }

    /// The level of the directory at `path`, found by the last component of
    /// the path. A path without one is classified by the empty name.
    pub fn classify_directory(&self, path: &str) -> (level: Option<Permissions>)
        ensures
            level == directory_level(self.overrides(), path@),
    {
        match file_name(path) {
            Some(name) => self.classify(name),
            None => {
                proof {
                    reveal_strlit("");
                    assert(""@ =~= Seq::<char>::empty());
                }
                self.classify("")
            },
        }
    }
}

/// Every name of the built-in table has the level under which the table
/// lists it: no entry of the table hides another.
pub proof fn lemma_builtin_table(name: Seq<char>)
    ensures
        name == "divine_texts"@ || name == "holy_writings"@ || name == "apocrypha"@
            ==> builtin_level(name) == Some(Permissions::Divine),
        name == "royal_archives"@ || name == "kings_chronicles"@ || name == "pseudepigrapha"@
            ==> builtin_level(name) == Some(Permissions::Royal),
        name == "common_records"@ || name == "census"@ || name == "targumim"@ || name
            == "mishnah"@ || name == "gemara"@ ==> builtin_level(name) == Some(
            Permissions::Common,
        ),
{
    reveal_strlit("divine_texts");
    reveal_strlit("holy_writings");
    reveal_strlit("apocrypha");
    reveal_strlit("royal_archives");
    reveal_strlit("kings_chronicles");
    reveal_strlit("pseudepigrapha");
    reveal_strlit("common_records");
    reveal_strlit("census");
    reveal_strlit("targumim");
    reveal_strlit("mishnah");
    reveal_strlit("gemara");
    assert("divine_texts"@[0] == 'd' && "holy_writings"@[0] == 'h' && "apocrypha"@[0] == 'a');
    assert("royal_archives"@[0] == 'r' && "kings_chronicles"@[0] == 'k' && "pseudepigrapha"@[0]
        == 'p');
    assert("common_records"@[0] == 'c' && "census"@[0] == 'c' && "targumim"@[0] == 't'
        && "mishnah"@[0] == 'm' && "gemara"@[0] == 'g');
}

/// The empty name is in no tier of the built-in table.
pub proof fn lemma_builtin_empty_name()
    ensures
        builtin_level(Seq::<char>::empty()) is None,
{
    reveal_strlit("divine_texts");
    reveal_strlit("holy_writings");
    reveal_strlit("apocrypha");
    reveal_strlit("royal_archives");
    reveal_strlit("kings_chronicles");
    reveal_strlit("pseudepigrapha");
    reveal_strlit("common_records");
    reveal_strlit("census");
    reveal_strlit("targumim");
    reveal_strlit("mishnah");
    reveal_strlit("gemara");
    let name = Seq::<char>::empty();
    assert(name.len() == 0);
    assert("divine_texts"@.len() == 12 && "holy_writings"@.len() == 13 && "apocrypha"@.len() == 9);
    assert("royal_archives"@.len() == 14 && "kings_chronicles"@.len() == 16
        && "pseudepigrapha"@.len() == 14);
    assert("common_records"@.len() == 14 && "census"@.len() == 6 && "targumim"@.len() == 8
        && "mishnah"@.len() == 7 && "gemara"@.len() == 6);
}

/// The three cases of classification. A name of the built-in table has the
/// table's level, whatever the overrides say; a name that only the overrides
/// hold has the level they give it; a name in neither has none.
pub proof fn lemma_classification_cases(overrides: Map<Seq<char>, Permissions>, name: Seq<char>)
    ensures
        builtin_level(name) is Some ==> resolve(overrides, name) == builtin_level(name),
        builtin_level(name) is None && overrides.contains_key(name) ==> resolve(overrides, name)
            == Some(overrides[name]),
        builtin_level(name) is None && !overrides.contains_key(name) ==> resolve(overrides, name)
            is None,
{
}

/// What an override changes. Recording `level` for `name` gives `name` that
/// level if the built-in table does not hold it, and otherwise changes
/// nothing; the level of every other name stays as it was.
pub proof fn lemma_override_effect(
    overrides: Map<Seq<char>, Permissions>,
    name: Seq<char>,
    level: Permissions,
    other: Seq<char>,
)
    ensures
        builtin_level(name) is Some ==> resolve(overrides.insert(name, level), name)
            == builtin_level(name),
        builtin_level(name) is None ==> resolve(overrides.insert(name, level), name) == Some(
            level,
        ),
        other != name ==> resolve(overrides.insert(name, level), other) == resolve(
            overrides,
            other,
        ),
{
}

/// The initial overrides name only directories that the built-in table
/// holds, so a new repository classifies by the built-in table alone.
pub proof fn lemma_initial_overrides_add_nothing(name: Seq<char>)
    ensures
        resolve(initial_overrides(), name) == builtin_level(name),
{
    lemma_builtin_table(name);
}

} // verus!
