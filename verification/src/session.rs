//! The state of an editing session, and what each action of the user does
//! to it. Drawing, dialogs and files are the caller's: it hands in what was
//! chosen or read, and writes what it is handed back.

use vstd::prelude::*;
use std::path::PathBuf;
use crate::config::Config;
use crate::document::{document_rewritten, document_values};
use crate::file_manager::{as_path, backups_dir, path_buf_text, FileManager};
use crate::values::{leaf_views, LeafValue, XmlValue};
use crate::walk::XmlError;
use crate::xml_handler::XmlHandler;

verus! {

/// What the window shows.
#[derive(Debug)]
pub enum ViewState {
    /// The list of categories.
    Categories,
    /// The files of one category.
    FileList(String),
}

/// What a session is, as a mathematical value.
pub struct SessionView {
    /// The bytes of the path of the game's data directory.
    pub game_dir: Seq<u8>,
    /// The bytes of the path of the directory that backups go to.
    pub backup_dir: Seq<u8>,
    /// The category whose files are listed, if one is.
    pub category: Option<Seq<char>>,
    /// The bytes of the path of the selected file, if one is selected.
    pub selected_file: Option<Seq<u8>>,
    /// The values loaded from the selected file, with the edits made so far.
    pub values: Option<Seq<LeafValue>>,
}

/// An editing session.
pub struct ModManagerApp {
    file_manager: FileManager,
    config: Config,
    selected_file: Option<PathBuf>,
    xml_values: Option<Vec<XmlValue>>,
    view_state: ViewState,
}

/// The name of the value that says how many points unlock a character.
pub open spec fn unlock_name() -> Seq<char> {
    seq!['P', 'o', 'i', 'n', 't', 's', 'T', 'o', 'U', 'n', 'l', 'o', 'c', 'k']
}

/// The index of the first of `leaves` with the name `name`.
pub open spec fn first_named(leaves: Seq<LeafValue>, name: Seq<char>) -> Option<int>
    decreases leaves.len(),
{
    if leaves.len() == 0 {
        None
    } else if leaves[0].name == name {
        Some(0)
    } else {
        match first_named(leaves.skip(1), name) {
            Some(i) => Some(i + 1),
            None => None,
        }
    }
}

/// `first_named` gives a value with the name that no earlier value has, and
/// gives none only where no value has the name.
pub proof fn lemma_first_named(leaves: Seq<LeafValue>, name: Seq<char>)
    ensures
        match first_named(leaves, name) {
            Some(i) => {
                &&& 0 <= i < leaves.len()
                &&& leaves[i].name == name
                &&& forall|j: int| 0 <= j < i ==> (#[trigger] leaves[j]).name != name
            },
            None => forall|j: int| 0 <= j < leaves.len() ==> (#[trigger] leaves[j]).name != name,
        },
    decreases leaves.len(),
{
    if leaves.len() > 0 && leaves[0].name != name {
        let rest = leaves.skip(1);
        lemma_first_named(rest, name);
        match first_named(rest, name) {
            Some(i) => {
                assert forall|j: int| 0 <= j < i + 1 implies (#[trigger] leaves[j]).name != name by {
                    if j > 0 {
                        assert(leaves[j] == rest[j - 1]);
                    }
                }
            },
            None => {
                assert forall|j: int| 0 <= j < leaves.len() implies (#[trigger] leaves[j]).name
                    != name by {
                    if j > 0 {
                        assert(leaves[j] == rest[j - 1]);
                    }
                }
            },
        }
    }
}

/// The values with the first one named `PointsToUnlock` set to `0`; `None`
/// where no value has that name.
pub open spec fn unlocked_values(leaves: Seq<LeafValue>) -> Option<Seq<LeafValue>> {
    match first_named(leaves, unlock_name()) {
        Some(i) => Some(leaves.update(i, LeafValue { value: seq!['0'], ..leaves[i] })),
        None => None,
    }
}

/// The document with its first value named `PointsToUnlock` set to `0`;
/// `None` where the document is refused or holds no such value.
pub open spec fn unlocked_document(input: Seq<u8>) -> Option<Seq<u8>> {
    match document_values(input) {
        Err(_) => None,
        Ok(leaves) => match unlocked_values(leaves) {
            None => None,
            Some(edited) => match document_rewritten(input, edited) {
                Ok(bytes) => Some(bytes),
                Err(_) => None,
            },
        },
    }
}

/// Sets the first value named `PointsToUnlock` to `0`. Says whether there
/// was one.
pub fn unlock_points(values: &mut Vec<XmlValue>) -> (found: bool)
    ensures
        found == unlocked_values(leaf_views(old(values)@)) is Some,
        leaf_views(final(values)@) == match unlocked_values(leaf_views(old(values)@)) {
            Some(edited) => edited,
            None => leaf_views(old(values)@),
        },
{
    let ghost leaves = leaf_views(values@);
    proof {
        reveal_strlit("PointsToUnlock");
        assert("PointsToUnlock"@ =~= unlock_name());
    }
    let wanted = "PointsToUnlock".to_owned();
    let mut i: usize = 0;
    while i < values.len()
        invariant
            i <= values.len(),
            values@ == old(values)@,
            leaves == leaf_views(values@),
            wanted@ == unlock_name(),
            forall|j: int| 0 <= j < i ==> (#[trigger] leaves[j]).name != unlock_name(),
        decreases values.len() - i,
    {
        assert(leaves[i as int] == values[i as int]@);
        if values[i].name == wanted {
            let entry = XmlValue {
                path: values[i].path.clone(),
                name: values[i].name.clone(),
                value: "0".to_owned(),
            };
            values.set(i, entry);
            proof {
                reveal_strlit("0");
                assert("0"@ =~= seq!['0']);
                lemma_first_named(leaves, unlock_name());
                assert(first_named(leaves, unlock_name()) == Some(i as int));
                assert(leaf_views(values@) =~= leaves.update(
                    i as int,
                    LeafValue { value: seq!['0'], ..leaves[i as int] },
                ));
            }
            return true;
        }
        i = i + 1;
    }
    proof {
        lemma_first_named(leaves, unlock_name());
    }
    false
}

impl View for ModManagerApp {
    type V = SessionView;

    closed spec fn view(&self) -> SessionView {
        SessionView {
            game_dir: path_buf_text(self.config.game_path),
            backup_dir: self.file_manager.backup_dir(),
            category: match self.view_state {
                ViewState::Categories => None,
                ViewState::FileList(category) => Some(category@),
            },
            selected_file: match self.selected_file {
                Some(file) => Some(path_buf_text(file)),
                None => None,
            },
            values: match self.xml_values {
                Some(values) => Some(leaf_views(values@)),
                None => None,
            },
        }
    }
}

impl ModManagerApp {
    /// The file manager works on the configured game directory, and keeps
    /// its backups in `backups`.
    #[verifier::type_invariant]
    spec fn well_formed(self) -> bool {
        &&& self.file_manager.game_dir() == path_buf_text(self.config.game_path)
        &&& self.file_manager.backup_dir() == backups_dir()
    }

    /// A session on the configured game directory, with a file manager made
    /// for that directory. It shows the categories; no file is selected and
    /// no values are loaded.
    pub fn new(config: Config) -> (session: Self)
        ensures
            session@ == (SessionView {
                game_dir: path_buf_text(config.game_path),
                backup_dir: backups_dir(),
                category: None,
                selected_file: None,
                values: None,
            }),
    {
        let file_manager = FileManager::new(as_path(&config.game_path));
        ModManagerApp {
            file_manager,
            config,
            selected_file: None,
            xml_values: None,
            view_state: ViewState::Categories,
        }
    }

    /// The user chose a game directory: the session works on it from now on,
    /// with a file manager made for it.
    pub fn choose_game_directory(&mut self, path: PathBuf)
        ensures
            final(self)@ == (SessionView { game_dir: path_buf_text(path), ..old(self)@ }),
    {
        proof {
            use_type_invariant(&*self);
        }
        let file_manager = FileManager::new(as_path(&path));
        let mut session = ModManagerApp {
            file_manager,
            config: Config { game_path: path },
            selected_file: None,
            xml_values: None,
            view_state: ViewState::Categories,
        };
        std::mem::swap(&mut session.selected_file, &mut self.selected_file);
        std::mem::swap(&mut session.xml_values, &mut self.xml_values);
        std::mem::swap(&mut session.view_state, &mut self.view_state);
        *self = session;
    }

    /// The user opened a category: its files are listed.
    pub fn show_category(&mut self, category: &str)
        ensures
            final(self)@ == (SessionView { category: Some(category@), ..old(self)@ }),
    {
        proof {
            use_type_invariant(&*self);
        }
        self.view_state = ViewState::FileList(category.to_owned());
    }

    /// The user went back to the categories: the selected file and its
    /// values are dropped.
    pub fn back_to_categories(&mut self)
        ensures
            final(self)@ == (SessionView {
                category: None,
                selected_file: None,
                values: None,
                ..old(self)@
            }),
    {
        proof {
            use_type_invariant(&*self);
        }
        self.view_state = ViewState::Categories;
        self.selected_file = None;
        self.xml_values = None;
    }

    /// The user selected a file: the values loaded before are dropped.
    pub fn select_file(&mut self, file: PathBuf)
        ensures
            final(self)@ == (SessionView {
                selected_file: Some(path_buf_text(file)),
                values: None,
                ..old(self)@
            }),
    {
        proof {
            use_type_invariant(&*self);
        }
        self.selected_file = Some(file);
        self.xml_values = None;
    }

    /// The user asked for the values of the selected file, whose bytes are
    /// `content`. Where the document is refused, the values loaded before
    /// stay as they are.
    pub fn load(&mut self, content: &[u8]) -> (outcome: Result<(), XmlError>)
        ensures
            match document_values(content@) {
                Ok(leaves) => outcome is Ok && final(self)@ == (SessionView {
                    values: Some(leaves),
                    ..old(self)@
                }),
                Err(e) => outcome == Err::<(), XmlError>(e) && final(self)@ == old(self)@,
            },
    {
        proof {
            use_type_invariant(&*self);
        }
        let mut handler = XmlHandler::new();
        match handler.load_file(content) {
            Ok(values) => {
                self.xml_values = Some(values);
                Ok(())
            },
            Err(e) => Err(e),
        }
    }

    /// The user typed `text` into the field of the value at `index`. Nothing
    /// changes where no values are loaded or there is no such value.
    pub fn edit_value(&mut self, index: usize, text: String)
        ensures
            final(self)@ == match old(self)@.values {
                Some(leaves) if index < leaves.len() => SessionView {
                    values: Some(
                        leaves.update(index as int, LeafValue { value: text@, ..leaves[index as int] }),
                    ),
                    ..old(self)@
                },
                _ => old(self)@,
            },
    {
        proof {
            use_type_invariant(&*self);
        }
        let mut loaded: Option<Vec<XmlValue>> = None;
        std::mem::swap(&mut self.xml_values, &mut loaded);
        if let Some(mut values) = loaded {
            let ghost leaves = leaf_views(values@);
            if index < values.len() {
                let entry = XmlValue {
                    path: values[index].path.clone(),
                    name: values[index].name.clone(),
                    value: text,
                };
                let mut handler = XmlHandler::new();
                let _ = handler.modify_value(
                    entry.path.as_str(),
                    entry.name.as_str(),
                    entry.value.as_str(),
                );
                values.set(index, entry);
                assert(leaf_views(values@) =~= leaves.update(
                    index as int,
                    LeafValue { value: text@, ..leaves[index as int] },
                ));
            }
            self.xml_values = Some(values);
        }
    }

    /// The user asked to save: the selected file, whose bytes are `content`,
    /// rewritten with the loaded values. `None` where no values are loaded.
    pub fn save(&self, content: &[u8]) -> (outcome: Option<Result<Vec<u8>, XmlError>>)
        ensures
            match self@.values {
                None => outcome is None,
                Some(leaves) => outcome matches Some(rewritten) && document_rewritten(
                    content@,
                    leaves,
                ) == match rewritten {
                    Ok(bytes) => Ok(bytes@),
                    Err(e) => Err(e),
                },
            },
    {
        match &self.xml_values {
            None => None,
            Some(values) => Some(XmlHandler::new().save_changes(content, values.as_slice())),
        }
    }

    /// The user asked to unlock a character whose file holds the bytes
    /// `content`: the file with its first value named `PointsToUnlock` set
    /// to `0`. `None`, and nothing to write, where the document is refused
    /// or holds no such value.
    pub fn unlock(&self, content: &[u8]) -> (outcome: Option<Vec<u8>>)
        ensures
            unlocked_document(content@) == match outcome {
                Some(bytes) => Some(bytes@),
                None => None,
            },
    {
        let mut handler = XmlHandler::new();
        match handler.load_file(content) {
            Err(_) => None,
            Ok(mut values) => {
                if unlock_points(&mut values) {
                    match handler.save_changes(content, values.as_slice()) {
                        Ok(bytes) => Some(bytes),
                        Err(_) => None,
                    }
                } else {
                    None
                }
            },
        }
    }

    pub fn view_state(&self) -> (state: &ViewState)
        ensures
            self@.category == match state {
                ViewState::Categories => None,
                ViewState::FileList(category) => Some(category@),
            },
    {
        &self.view_state
    }

    pub fn selected_file(&self) -> (file: Option<&PathBuf>)
        ensures
            self@.selected_file == match file {
                Some(path) => Some(path_buf_text(*path)),
                None => None,
            },
    {
        self.selected_file.as_ref()
    }

    pub fn values(&self) -> (values: Option<&Vec<XmlValue>>)
        ensures
            self@.values == match values {
                Some(loaded) => Some(leaf_views(loaded@)),
                None => None,
            },
    {
        self.xml_values.as_ref()
    }

    pub fn file_manager(&self) -> (manager: &FileManager)
        ensures
            manager.game_dir() == self@.game_dir,
            manager.backup_dir() == self@.backup_dir,
            manager.backup_dir() == backups_dir(),
    {
        proof {
            use_type_invariant(self);
        }
        &self.file_manager
    }

    pub fn config(&self) -> (config: &Config)
        ensures
            path_buf_text(config.game_path) == self@.game_dir,
    {
        &self.config
    }
}

} // verus!
