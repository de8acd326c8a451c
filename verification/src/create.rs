//! The screen that creates a session: pick a preset (or `Custom...`), or
//! tick repos, then type the session's name, with the names used before a
//! key away. Drawing and reading keys are the caller's; this is the state
//! and what each key does to it.
use vstd::prelude::*;
use crate::preset::kept;
use crate::screens::{
    initial_selection, initial_ticks, lemma_ticked_in_range, menu_cursor, names_at, pick, preset_choice, remember,
    remembered, ticked, Checklist, HistoryCursor, ListOutcome, ScreenKey,
};
use crate::session::{name_error, name_message, validate_name};
use crate::strset::strs;
use crate::terminal::byte_len;
use crate::text::{append_str, concat_str, copy_str, trim, trim_str};
use crate::tui::{char_pos, edit, Key, TextInput};

verus! {

/// The three stages of the screen.
#[derive(Debug, Clone, Copy, PartialEq, Eq, Structural)]
pub enum CreateMode {
    /// Choosing a preset, or `Custom...` (shown when presets exist).
    PresetSelect,
    /// Ticking repos.
    RepoSelect,
    /// Typing the name.
    Name,
}

/// The keys the screen reacts to; `Text` carries the keys of the name
/// field (a space ticks a repo while repos are ticked).
#[derive(Debug, Clone, Copy)]
pub enum CreateKey {
    Up,
    Down,
    Enter,
    Esc,
    /// Ctrl+C.
    Interrupt,
    Text(Key),
}

/// What a key asks of the caller.
#[derive(Debug)]
pub enum CreateStep {
    /// Draw the screen again.
    Continue,
    /// These repos were chosen: record them as the last selection and show
    /// the name field.
    Chosen(Vec<String>),
    /// This valid name was entered: find out whether a session has it, and
    /// report that with [`CreateScreen::name_checked`].
    CheckName(String),
    /// Leave without creating anything.
    Quit,
}

/// The state of the screen: the stage, the preset menu's cursor, the repo
/// checklist, the repos chosen, the name field, the place in the name
/// history, and the error shown until the next key.
#[derive(Debug)]
pub struct CreateScreen {
    pub mode: CreateMode,
    pub menu: usize,
    pub list: Checklist,
    pub chosen: Vec<String>,
    pub input: TextInput,
    pub history: HistoryCursor,
    pub footer: Option<String>,
}

/// The screen as the contracts see it.
pub struct CreateModel {
    pub mode: CreateMode,
    pub menu: usize,
    pub cursor: usize,
    pub checked: Seq<bool>,
    pub chosen: Seq<Seq<char>>,
    pub text: Seq<char>,
    pub tcur: usize,
    pub hindex: Option<usize>,
    pub saved: Seq<char>,
    pub footer: Option<Seq<char>>,
}

/// A step as the contracts see it.
pub enum CreateStepModel {
    Continue,
    Chosen(Seq<Seq<char>>),
    CheckName(Seq<char>),
    Quit,
}

/// The error when no source is registered to choose from.
pub open spec fn no_repos_message() -> Seq<char> {
    "No repos registered. Run `box repo add <path>` first."@
}

impl View for CreateScreen {
    type V = CreateModel;

    open spec fn view(&self) -> CreateModel {
        CreateModel {
            mode: self.mode,
            menu: self.menu,
            cursor: self.list.cursor,
            checked: self.list.checked@,
            chosen: strs(self.chosen@),
            text: self.input.text@,
            tcur: self.input.cursor,
            hindex: self.history.index,
            saved: self.history.saved@,
            footer: match self.footer {
                Some(f) => Some(f@),
                None => None,
            },
        }
    }
}

pub open spec fn step_view(s: CreateStep) -> CreateStepModel {
    match s {
        CreateStep::Continue => CreateStepModel::Continue,
        CreateStep::Chosen(v) => CreateStepModel::Chosen(strs(v@)),
        CreateStep::CheckName(n) => CreateStepModel::CheckName(n@),
        CreateStep::Quit => CreateStepModel::Quit,
    }
}

/// The repos of each preset.
pub open spec fn presets_view(p: Seq<Vec<String>>) -> Seq<Seq<Seq<char>>> {
    p.map_values(|v: Vec<String>| strs(v@))
}

/// The error for a preset whose repos are all gone.
pub open spec fn all_removed_message() -> Seq<char> {
    "All repos in this preset have been removed."@
}

/// The error for confirming no repo.
pub open spec fn none_ticked_message() -> Seq<char> {
    "At least one repo must be selected."@
}

/// The error for a name a session has already.
pub open spec fn taken_message(name: Seq<char>) -> Seq<char> {
    "Session '"@ + name + "' already exists."@
}

/// The state once an error is shown for the name: the field is emptied
/// and history browsing starts over.
pub open spec fn name_refused(m: CreateModel, footer: Seq<char>) -> CreateModel {
    CreateModel { text: Seq::empty(), tcur: 0, hindex: None, saved: Seq::empty(), footer: Some(footer), ..m }
}

/// The state with `t` in the name field, the cursor at its end.
pub open spec fn with_name_text(m: CreateModel, t: Seq<char>) -> CreateModel {
    CreateModel { text: t, tcur: byte_len(t) as usize, ..m }
}

/// What a key does while presets are offered.
pub open spec fn preset_step(m: CreateModel, key: CreateKey, repos: Seq<Seq<char>>, presets: Seq<Seq<Seq<char>>>) -> (
    CreateModel,
    CreateStepModel,
) {
    match key {
        CreateKey::Up => (
            CreateModel { menu: if m.menu > 0 { (m.menu - 1) as usize } else { 0 }, ..m },
            CreateStepModel::Continue,
        ),
        CreateKey::Down => (
            CreateModel { menu: if m.menu + 1 < presets.len() + 1 { (m.menu + 1) as usize } else { m.menu }, ..m },
            CreateStepModel::Continue,
        ),
        CreateKey::Enter => if m.menu < presets.len() {
            let k = kept(presets[m.menu as int], repos);
            if k.len() == 0 {
                (CreateModel { footer: Some(all_removed_message()), ..m }, CreateStepModel::Continue)
            } else {
                (CreateModel { chosen: k, mode: CreateMode::Name, ..m }, CreateStepModel::Chosen(k))
            }
        } else {
            (CreateModel { cursor: 0, mode: CreateMode::RepoSelect, ..m }, CreateStepModel::Continue)
        },
        CreateKey::Esc | CreateKey::Interrupt => (m, CreateStepModel::Quit),
        CreateKey::Text(_) => (m, CreateStepModel::Continue),
    }
}

/// What a key does while repos are ticked.
pub open spec fn repo_step(m: CreateModel, key: CreateKey, repos: Seq<Seq<char>>) -> (CreateModel, CreateStepModel) {
    match key {
        CreateKey::Up => (
            CreateModel { cursor: if m.cursor > 0 { (m.cursor - 1) as usize } else { 0 }, ..m },
            CreateStepModel::Continue,
        ),
        CreateKey::Down => (
            CreateModel { cursor: if m.cursor + 1 < m.checked.len() { (m.cursor + 1) as usize } else { m.cursor }, ..m },
            CreateStepModel::Continue,
        ),
        CreateKey::Enter => {
            let t = ticked(m.checked);
            if t.len() == 0 {
                (CreateModel { footer: Some(none_ticked_message()), ..m }, CreateStepModel::Continue)
            } else {
                let c = names_at(repos, t);
                (CreateModel { chosen: c, mode: CreateMode::Name, ..m }, CreateStepModel::Chosen(c))
            }
        },
        CreateKey::Esc | CreateKey::Interrupt => (m, CreateStepModel::Quit),
        CreateKey::Text(k) => if k == Key::Char(' ') {
            (
                CreateModel { checked: m.checked.update(m.cursor as int, !m.checked[m.cursor as int]), ..m },
                CreateStepModel::Continue,
            )
        } else {
            (m, CreateStepModel::Continue)
        },
    }
}

/// What a key does while the name is typed: Enter submits the trimmed
/// name (or shows why it is refused), Up and Down browse the names used
/// before, and the other keys edit the field.
pub open spec fn name_step(m: CreateModel, key: CreateKey, history: Seq<Seq<char>>) -> (CreateModel, CreateStepModel) {
    match key {
        CreateKey::Enter => {
            let n = trim(m.text);
            match name_error(n) {
                Some(e) => (name_refused(m, name_message(e, n)), CreateStepModel::Continue),
                None => (m, CreateStepModel::CheckName(n)),
            }
        },
        CreateKey::Up => if history.len() == 0 {
            (m, CreateStepModel::Continue)
        } else {
            match m.hindex {
                None => (
                    with_name_text(CreateModel { hindex: Some(0usize), saved: m.text, ..m }, history[0]),
                    CreateStepModel::Continue,
                ),
                Some(i) => if i + 1 < history.len() {
                    (
                        with_name_text(CreateModel { hindex: Some((i + 1) as usize), ..m }, history[i + 1]),
                        CreateStepModel::Continue,
                    )
                } else {
                    (m, CreateStepModel::Continue)
                },
            }
        },
        CreateKey::Down => match m.hindex {
            None => (m, CreateStepModel::Continue),
            Some(i) => if i == 0 {
                (with_name_text(CreateModel { hindex: None, ..m }, m.saved), CreateStepModel::Continue)
            } else {
                (
                    with_name_text(CreateModel { hindex: Some((i - 1) as usize), ..m }, history[i - 1]),
                    CreateStepModel::Continue,
                )
            },
        },
        CreateKey::Esc | CreateKey::Interrupt => (m, CreateStepModel::Quit),
        CreateKey::Text(k) => {
            let (s2, k2) = edit(m.text, char_pos(m.text, m.tcur as int), k);
            (CreateModel { text: s2, tcur: byte_len(s2.take(k2)) as usize, ..m }, CreateStepModel::Continue)
        },
    }
}

/// What a key does: while an error shows, any key only clears it; Ctrl+C
/// leaves; otherwise it depends on the stage.
pub open spec fn create_step(
    m: CreateModel,
    key: CreateKey,
    repos: Seq<Seq<char>>,
    presets: Seq<Seq<Seq<char>>>,
    history: Seq<Seq<char>>,
) -> (CreateModel, CreateStepModel) {
    if m.footer is Some {
        (CreateModel { footer: None, ..m }, CreateStepModel::Continue)
    } else if key is Interrupt {
        (m, CreateStepModel::Quit)
    } else {
        match m.mode {
            CreateMode::PresetSelect => preset_step(m, key, repos, presets),
            CreateMode::RepoSelect => repo_step(m, key, repos),
            CreateMode::Name => name_step(m, key, history),
        }
    }
}

impl CreateScreen {
    /// What the screen keeps true with `repos` repos, `presets` presets and
    /// the name history `history`: one tick per repo and at least one repo,
    /// the menu cursor on the menu, the field's cursor on a character
    /// boundary, the history position inside the history, and the typed
    /// text kept while browsing small enough to edit again.
    pub open spec fn wf(&self, repos: nat, presets: nat, history: Seq<Seq<char>>) -> bool {
        &&& self.list.checked@.len() == repos
        &&& self.list.wf()
        &&& self.menu < presets + 1
        &&& self.input.wf()
        &&& match self.history.index {
            Some(i) => i < history.len(),
            None => true,
        }
        &&& byte_len(self.history.saved@) <= usize::MAX
    }

    /// The screen as it opens: on the presets when there are some, else on
    /// the repos, ticked as last time (all of them when nothing was
    /// recorded), with an empty name field.
    pub open spec fn opened(repos: Seq<Seq<char>>, presets: nat, last: Seq<Seq<char>>) -> CreateModel {
        CreateModel {
            mode: if presets > 0 { CreateMode::PresetSelect } else { CreateMode::RepoSelect },
            menu: 0,
            cursor: 0,
            checked: initial_ticks(repos, last),
            chosen: Seq::empty(),
            text: Seq::empty(),
            tcur: 0,
            hindex: None,
            saved: Seq::empty(),
            footer: None,
        }
    }

    /// The screen as it opens (see [`CreateScreen::opened`]), for a
    /// non-empty list of registered repos.
    pub fn new(repos: &Vec<String>, presets: usize, last: &Vec<String>) -> (s: CreateScreen)
        requires
            repos@.len() > 0,
        ensures
            s.wf(repos@.len(), presets as nat, Seq::empty()),
            s@ == Self::opened(strs(repos@), presets as nat, strs(last@)),
    {
        let checked = initial_selection(repos, last);
        let s = CreateScreen {
            mode: if presets > 0 { CreateMode::PresetSelect } else { CreateMode::RepoSelect },
            menu: 0,
            list: Checklist::new(checked),
            chosen: Vec::new(),
            input: TextInput::new(),
            history: HistoryCursor::new(),
            footer: None,
        };
        assert(strs(s.chosen@) =~= Seq::<Seq<char>>::empty());
        assert(s.history.saved@ =~= Seq::<char>::empty());
        assert(byte_len(Seq::<char>::empty()) == 0);
        s
    }

    /// Opens the screen on the registered `repos` (see
    /// [`CreateScreen::new`]); with none registered there is nothing to
    /// choose from, and the error says how to register one.
    pub fn open(repos: &Vec<String>, presets: usize, last: &Vec<String>) -> (r: Result<CreateScreen, String>)
        ensures
            repos@.len() == 0 ==> (r matches Err(m) && m@ == no_repos_message()),
            repos@.len() > 0 ==> (r matches Ok(s) && s.wf(repos@.len(), presets as nat, Seq::empty()) && s@
                == Self::opened(strs(repos@), presets as nat, strs(last@))),
    {
        if repos.len() == 0 {
            return Err("No repos registered. Run `box repo add <path>` first.".to_string());
        }
        Ok(Self::new(repos, presets, last))
    }

    /// Applies a key (see [`create_step`]); `repos` are the registered
    /// repos, `presets` the repos of each preset, `history` the names used
    /// before, newest first.
    pub fn key(&mut self, key: CreateKey, repos: &Vec<String>, presets: &Vec<Vec<String>>, history: &Vec<String>) -> (r: CreateStep)
        requires
            old(self).wf(repos@.len(), presets@.len(), strs(history@)),
            presets@.len() < usize::MAX,
            byte_len(old(self).input.text@) + 4 <= usize::MAX,
            forall|i: int| 0 <= i < history@.len() ==> byte_len((#[trigger] history@[i])@) <= usize::MAX,
        ensures
            final(self).wf(repos@.len(), presets@.len(), strs(history@)),
            (final(self)@, step_view(r)) == create_step(
                old(self)@,
                key,
                strs(repos@),
                presets_view(presets@),
                strs(history@),
            ),
    {
        if self.footer.is_some() {
            self.footer = None;
            return CreateStep::Continue;
        }
        if let CreateKey::Interrupt = key {
            return CreateStep::Quit;
        }
        match self.mode {
            CreateMode::PresetSelect => self.preset_key(key, repos, presets),
            CreateMode::RepoSelect => self.repo_key(key, repos),
            CreateMode::Name => self.name_key(key, history),
        }
    }

    fn preset_key(&mut self, key: CreateKey, repos: &Vec<String>, presets: &Vec<Vec<String>>) -> (r: CreateStep)
        requires
            old(self).menu < presets@.len() + 1,
            presets@.len() < usize::MAX,
        ensures
            (final(self)@, step_view(r)) == preset_step(old(self)@, key, strs(repos@), presets_view(presets@)),
            final(self).list.checked@ == old(self).list.checked@,
            final(self).list.cursor <= old(self).list.cursor,
            final(self).menu < presets@.len() + 1,
            final(self).input == old(self).input,
            final(self).history == old(self).history,
    {
        let items = presets.len() + 1;
        match key {
            CreateKey::Up => {
                self.menu = menu_cursor(self.menu, items, ScreenKey::Up);
                CreateStep::Continue
            },
            CreateKey::Down => {
                self.menu = menu_cursor(self.menu, items, ScreenKey::Down);
                CreateStep::Continue
            },
            CreateKey::Enter => {
                if self.menu < presets.len() {
                    assert(presets_view(presets@)[self.menu as int] == strs(presets@[self.menu as int]@));
                    match preset_choice(&presets[self.menu], repos) {
                        Ok(v) => {
                            self.chosen = crate::strset::copy_strs(&v);
                            self.mode = CreateMode::Name;
                            CreateStep::Chosen(v)
                        },
                        Err(m) => {
                            self.footer = Some(m);
                            CreateStep::Continue
                        },
                    }
                } else {
                    self.list.cursor = 0;
                    self.mode = CreateMode::RepoSelect;
                    CreateStep::Continue
                }
            },
            CreateKey::Esc | CreateKey::Interrupt => CreateStep::Quit,
            CreateKey::Text(_) => CreateStep::Continue,
        }
    }

    fn repo_key(&mut self, key: CreateKey, repos: &Vec<String>) -> (r: CreateStep)
        requires
            old(self).list.wf(),
            old(self).list.checked@.len() == repos@.len(),
        ensures
            (final(self)@, step_view(r)) == repo_step(old(self)@, key, strs(repos@)),
            final(self).list.wf(),
            final(self).list.checked@.len() == old(self).list.checked@.len(),
            final(self).menu == old(self).menu,
            final(self).input == old(self).input,
            final(self).history == old(self).history,
    {
        match key {
            CreateKey::Up => {
                self.list.key(ScreenKey::Up);
                CreateStep::Continue
            },
            CreateKey::Down => {
                self.list.key(ScreenKey::Down);
                CreateStep::Continue
            },
            CreateKey::Enter => {
                let n = self.list.checked.len();
                proof {
                    assert(n == self.list.checked@.len());
                    lemma_ticked_in_range(self.list.checked@);
                }
                match self.list.key(ScreenKey::Enter) {
                    ListOutcome::Confirm(at) => {
                        let names = pick(repos, &at);
                        self.chosen = crate::strset::copy_strs(&names);
                        self.mode = CreateMode::Name;
                        CreateStep::Chosen(names)
                    },
                    _ => {
                        self.footer = Some("At least one repo must be selected.".to_string());
                        CreateStep::Continue
                    },
                }
            },
            CreateKey::Esc | CreateKey::Interrupt => CreateStep::Quit,
            CreateKey::Text(k) => {
                if let Key::Char(c) = k {
                    if c == ' ' {
                        self.list.key(ScreenKey::Toggle);
                    }
                }
                CreateStep::Continue
            },
        }
    }

    fn name_key(&mut self, key: CreateKey, history: &Vec<String>) -> (r: CreateStep)
        requires
            old(self).input.wf(),
            byte_len(old(self).input.text@) + 4 <= usize::MAX,
            match old(self).history.index {
                Some(i) => i < history@.len(),
                None => true,
            },
            byte_len(old(self).history.saved@) <= usize::MAX,
            forall|i: int| 0 <= i < history@.len() ==> byte_len((#[trigger] history@[i])@) <= usize::MAX,
        ensures
            (final(self)@, step_view(r)) == name_step(old(self)@, key, strs(history@)),
            final(self).input.wf(),
            match final(self).history.index {
                Some(i) => i < history@.len(),
                None => true,
            },
            byte_len(final(self).history.saved@) <= usize::MAX,
            final(self).list == old(self).list,
            final(self).menu == old(self).menu,
    {
        match key {
            CreateKey::Enter => {
                let n = trim_str(self.input.text.as_str());
                match validate_name(n.as_str()) {
                    Ok(v) => {
                                CreateStep::CheckName(v)
                    },
                    Err(e) => {
                        self.footer = Some(e.message());
                        self.input = TextInput::new();
                        self.history = HistoryCursor::new();
                        proof {
                            assert(byte_len(Seq::<char>::empty()) == 0);
                        }
                                CreateStep::Continue
                    },
                }
            },
            CreateKey::Up => {
                let typed = copy_str(self.input.text.as_str());
                let ghost old_index = self.history.index;
                match self.history.up(history, typed.as_str()) {
                    Some(t) => {
                        proof {
                            let j: int = match old_index {
                                None => 0,
                                Some(i) => i + 1,
                            };
                            assert(t@ == history@[j]@);
                            assert(byte_len(history@[j]@) <= usize::MAX);
                            assert(strs(history@)[j] == history@[j]@);
                        }
                        self.input = TextInput::with_text(t);
                    },
                    None => {},
                }
                CreateStep::Continue
            },
            CreateKey::Down => {
                let ghost old_index = self.history.index;
                match self.history.down(history) {
                    Some(t) => {
                        proof {
                            match old_index {
                                Some(i) => {
                                    if i > 0 {
                                        assert(t@ == history@[i - 1]@);
                                        assert(byte_len(history@[i - 1]@) <= usize::MAX);
                                        assert(strs(history@)[i - 1] == history@[i - 1]@);
                                    }
                                },
                                None => {},
                            }
                        }
                        self.input = TextInput::with_text(t);
                    },
                    None => {},
                }
                CreateStep::Continue
            },
            CreateKey::Esc | CreateKey::Interrupt => CreateStep::Quit,
            CreateKey::Text(k) => {
                self.input.handle_key(k);
                CreateStep::Continue
            },
        }
    }

    /// Reports whether a session has the name [`CreateStep::CheckName`]
    /// gave: if so the error shows and the field empties; if not, the
    /// screen is done and gives the history to record, `name` first.
    pub fn name_checked(&mut self, name: &str, taken: bool, history: &Vec<String>) -> (r: Option<Vec<String>>)
        ensures
            taken ==> r is None && final(self)@ == name_refused(old(self)@, taken_message(name@)),
            !taken ==> (r matches Some(h) && strs(h@) == remembered(strs(history@), name@)) && final(self)@ == old(
                self,
            )@,
            final(self).list == old(self).list,
            final(self).menu == old(self).menu,
            taken ==> final(self).input.wf() && final(self).history.index is None && byte_len(
                final(self).history.saved@,
            ) == 0,
            !taken ==> final(self).input == old(self).input && final(self).history == old(self).history,
    {
        if taken {
            let mut m = concat_str("Session '", name);
            append_str(&mut m, "' already exists.");
            self.footer = Some(m);
            self.input = TextInput::new();
            self.history = HistoryCursor::new();
            proof {
                assert(byte_len(Seq::<char>::empty()) == 0);
            }
            None
        } else {
            Some(remember(history, name))
        }
    }
}

proof fn lemma_kept_registered(repos: Seq<Seq<char>>, registered: Seq<Seq<char>>)
    ensures
        forall|i: int| 0 <= i < kept(repos, registered).len() ==> registered.contains(#[trigger] kept(repos, registered)[i]),
    decreases repos.len(),
{
    if repos.len() > 0 {
        lemma_kept_registered(repos.drop_last(), registered);
        let prev = kept(repos.drop_last(), registered);
        let k = kept(repos, registered);
        assert forall|i: int| 0 <= i < k.len() implies registered.contains(#[trigger] k[i]) by {
            if i < prev.len() {
                assert(k[i] == prev[i]);
            }
        }
    }
}

/// The repos the screen hands over are registered ones: whatever the key,
/// a `Chosen` step names only repos of `repos`.
pub proof fn lemma_chosen_are_registered(
    m: CreateModel,
    key: CreateKey,
    repos: Seq<Seq<char>>,
    presets: Seq<Seq<Seq<char>>>,
    history: Seq<Seq<char>>,
)
    requires
        m.checked.len() == repos.len(),
        repos.len() <= usize::MAX,
    ensures
        create_step(m, key, repos, presets, history).1 matches CreateStepModel::Chosen(c) ==> forall|i: int|
            0 <= i < c.len() ==> repos.contains(#[trigger] c[i]),
{
    if m.mode == CreateMode::PresetSelect && m.menu < presets.len() {
        lemma_kept_registered(presets[m.menu as int], repos);
    }
    if m.mode == CreateMode::RepoSelect {
        let t = ticked(m.checked);
        lemma_ticked_in_range(m.checked);
        assert forall|i: int| 0 <= i < names_at(repos, t).len() implies repos.contains(#[trigger] names_at(repos, t)[i]) by {
            assert(t[i] < m.checked.len());
            assert(repos[t[i] as int] == names_at(repos, t)[i]);
        }
    }
}

} // verus!
