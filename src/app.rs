use crate::data::{
    add_to_index, cat_name, category_position, has_category, names_distinct, index_consistent, lemma_add_consistent, lemma_category_position,
    lemma_remove_consistent, no_category, remove_from_index, shift_out, Category,
    CategoryView, Snippet,
};
use crate::event::Event;
use crate::keys::{input_request_of, request_table, Key, KeyInput, KeyKind, SHIFT};
use crate::search_input::{
    apply_edit, buffer_cursor, buffer_ok, buffer_text, cursor_of, edit_cursor, edit_text,
    empty_buffer, lemma_insert_at_end_appends, text_of,
};
use tui_input::{Input, InputRequest};
use vstd::prelude::*;

verus! {

/// The application state: snippets, their category index, the search buffer
/// and the current input mode.
pub struct App {
    pub state: State,
    pub snippets: Vec<Snippet>,
    pub categories: Vec<Category>,
    pub input: Input,
    pub input_mode: AppInputMode,
}

/// Whether keystrokes are commands or edit the search buffer.
#[derive(PartialEq, Eq, Structural, Clone, Copy, Debug)]
pub enum AppInputMode {
    Normal,
    Searching,
}

/// The screen the application shows.
#[derive(PartialEq, Eq, Structural, Clone, Copy, Debug)]
pub enum State {
    Main,
    NewSnippet,
    Settings,
}

/// The commands offered to the user.
#[derive(PartialEq, Eq, Structural, Clone, Copy, Debug)]
pub enum Commands {
    Quit,
    Search,
    Select,
    Delete,
    Edit,
    New,
    Help,
    NoCommand,
}

/// What the main loop does after a key press.
#[derive(PartialEq, Eq, Clone, Copy, Debug)]
pub enum Action {
    Continue,
    Quit,
    Edit(InputRequest),
}

/// Errors of the state operations.
#[derive(PartialEq, Eq, Structural, Clone, Copy, Debug)]
pub enum AppError {
    OutOfRange,
}

pub open spec fn command_name(c: Commands) -> Seq<char> {
    match c {
        Commands::Quit => "Quit"@,
        Commands::Search => "Search"@,
        Commands::Select => "Select"@,
        Commands::Delete => "Delete"@,
        Commands::Edit => "Edit"@,
        Commands::New => "New"@,
        Commands::Help => "Help"@,
        Commands::NoCommand => "None"@,
    }
}

impl Commands {
    /// The command's label.
    pub fn stringfy(&self) -> (r: &str)
        ensures
            r@ == command_name(*self),
    {
        match self {
            Commands::Quit => "Quit",
            Commands::Search => "Search",
            Commands::Select => "Select",
            Commands::Delete => "Delete",
            Commands::Edit => "Edit",
            Commands::New => "New",
            Commands::Help => "Help",
            Commands::NoCommand => "None",
        }
    }

    /// The commands shown in the tab bar, in order.
    pub fn all_cases() -> (r: Vec<Commands>)
        ensures
            r@ == seq![
                Commands::Search,
                Commands::New,
                Commands::Edit,
                Commands::Delete,
                Commands::Quit,
            ],
    {
        let r = vec![
            Commands::Search,
            Commands::New,
            Commands::Edit,
            Commands::Delete,
            Commands::Quit,
        ];
        assert(r@ =~= seq![
            Commands::Search,
            Commands::New,
            Commands::Edit,
            Commands::Delete,
            Commands::Quit,
        ]);
        r
    }
}

/// The input-mode transition table: the next mode and what the loop does.
pub open spec fn transition_spec(mode: AppInputMode, k: KeyInput) -> (AppInputMode, Action) {
    match mode {
        AppInputMode::Normal => match k.code {
            Key::Char('q') | Key::Char('Q') => (AppInputMode::Normal, Action::Quit),
            Key::Char('s') | Key::Char('S') => (AppInputMode::Searching, Action::Continue),
            _ => (AppInputMode::Normal, Action::Continue),
        },
        AppInputMode::Searching => match k.code {
            Key::Enter | Key::Esc => (AppInputMode::Normal, Action::Continue),
            _ => (
                AppInputMode::Searching,
                match request_table(k) {
                    Some(r) => Action::Edit(r),
                    None => Action::Continue,
                },
            ),
        },
    }
}

/// In search mode a printable character, pressed alone or with Shift, stays in
/// search mode and is inserted at the cursor; with the cursor at the end of the
/// text it is appended and the cursor moves on by one.
pub proof fn lemma_typing_in_search_mode(c: char, modifiers: u8, text: Seq<char>)
    requires
        modifiers == 0 || modifiers == SHIFT,
    ensures
        transition_spec(
            AppInputMode::Searching,
            KeyInput { code: Key::Char(c), modifiers, kind: KeyKind::Press },
        ) == (AppInputMode::Searching, Action::Edit(InputRequest::InsertChar(c))),
        edit_text(text, text.len(), InputRequest::InsertChar(c)) == text.push(c),
        edit_cursor(text, text.len(), InputRequest::InsertChar(c)) == text.len() + 1,
{
    lemma_insert_at_end_appends(text, c);
}

/// One step of the input-mode machine.
pub fn transition(mode: AppInputMode, k: KeyInput) -> (r: (AppInputMode, Action))
    ensures
        r == transition_spec(mode, k),
{
    match mode {
        AppInputMode::Normal => match k.code {
            Key::Char('q') | Key::Char('Q') => (AppInputMode::Normal, Action::Quit),
            Key::Char('s') | Key::Char('S') => (AppInputMode::Searching, Action::Continue),
            _ => (AppInputMode::Normal, Action::Continue),
        },
        AppInputMode::Searching => match k.code {
            Key::Enter | Key::Esc => (AppInputMode::Normal, Action::Continue),
            _ => (
                AppInputMode::Searching,
                match input_request_of(k) {
                    Some(r) => Action::Edit(r),
                    None => Action::Continue,
                },
            ),
        },
    }
}

/// The shifted copy of a position list once the snippet at `i` is gone.
pub fn shifted_indices(q: &Vec<usize>, i: usize) -> (r: Vec<usize>)
    ensures
        r@ == shift_out(q@, i),
{
    let mut r: Vec<usize> = Vec::new();
    let mut k: usize = 0;
    while k < q.len()
        invariant
            k <= q.len(),
            r@ == shift_out(q@.take(k as int), i),
        decreases q.len() - k,
    {
        let p = q[k];
        assert(q@.take(k + 1).drop_last() =~= q@.take(k as int));
        if p > i {
            r.push(p - 1);
        } else if p < i {
            r.push(p);
        }
        k += 1;
    }
    assert(q@.take(q.len() as int) =~= q@);
    r
}

impl App {
    /// The category index as a mathematical value.
    pub open spec fn categories_view(&self) -> Seq<CategoryView> {
        self.categories@.map_values(|c: Category| c@)
    }

    /// The text of the search buffer.
    pub open spec fn search_text(&self) -> Seq<char> {
        buffer_text(self.input)
    }

    /// The cursor of the search buffer.
    pub open spec fn search_cursor(&self) -> nat {
        buffer_cursor(self.input)
    }

    /// The state is well formed: the category index is consistent with the
    /// snippet list and the search cursor lies within its text.
    pub open spec fn wf(&self) -> bool {
        &&& index_consistent(self.categories_view(), self.snippets@)
        &&& buffer_ok(self.input)
    }

    /// Adds a snippet at the end of the list and records its position under its
    /// category, creating the category entry when there is none.
    pub fn add_snippet(&mut self, snippet: Snippet)
        requires
            old(self).wf(),
        ensures
            final(self).wf(),
            final(self).snippets@ == old(self).snippets@.push(snippet),
            final(self).categories_view() == add_to_index(
                old(self).categories_view(),
                cat_name(snippet),
                old(self).snippets@.len() as usize,
            ),
            final(self).state == old(self).state,
            final(self).input == old(self).input,
            final(self).input_mode == old(self).input_mode,
    {
        let ghost cats = self.categories_view();
        let ghost name = cat_name(snippet);
        let n = self.snippets.len();
        let found = self.category_of(&snippet);
        match found {
            Some(c) => {
                let ghost before = self.categories@;
                self.categories[c].indices.push(n);
                assert(self.categories@ == before.update(c as int, self.categories@[c as int]));
                assert(self.categories_view() =~= add_to_index(cats, name, n)) by {
                    assert(category_position(cats, name) == c);
                    assert forall|j: int| 0 <= j < cats.len() && j != c implies #[trigger] self.categories_view()[j]
                        == cats[j] by {}
                }
            },
            None => {
                let cat_name_string = match &snippet.category {
                    Some(nm) => nm.clone(),
                    None => String::from_str("No category"),
                };
                self.categories.push(Category { name: cat_name_string, indices: vec![n] });
                assert(self.categories_view() =~= add_to_index(cats, name, n)) by {
                    assert(self.categories_view()[cats.len() as int].indices =~= seq![n]);
                    assert forall|j: int| 0 <= j < cats.len() implies #[trigger] self.categories_view()[j]
                        == cats[j] by {}
                }
            },
        }
        proof {
            lemma_add_consistent(cats, old(self).snippets@, snippet);
        }
        self.snippets.push(snippet);
    }

    /// The position of the index entry that a snippet belongs to, if there is one.
    fn category_of(&self, snippet: &Snippet) -> (r: Option<usize>)
        requires
            self.wf(),
        ensures
            match r {
                Some(c) => has_category(self.categories_view(), cat_name(*snippet)) && c
                    == category_position(self.categories_view(), cat_name(*snippet)) && c
                    < self.categories@.len(),
                None => !has_category(self.categories_view(), cat_name(*snippet)),
            },
    {
        let ghost cats = self.categories_view();
        match &snippet.category {
            Some(name) => {
                let mut i: usize = 0;
                while i < self.categories.len()
                    invariant
                        i <= self.categories.len(),
                        cats == self.categories_view(),
                        names_distinct(cats),
                        cat_name(*snippet) == name@,
                        forall|j: int| 0 <= j < i ==> #[trigger] cats[j].name != name@,
                    decreases self.categories.len() - i,
                {
                    if self.categories[i].name == *name {
                        proof {
                            lemma_category_position(cats, name@, i as int);
                        }
                        return Some(i);
                    }
                    i += 1;
                }
                None
            },
            None => {
                proof {
                    lemma_category_position(cats, no_category(), 0);
                }
                Some(0)
            },
        }
    }

    /// Removes the snippet at `idx`; every position above it in the category
    /// index moves down by one. Empty category entries are kept.
    pub fn remove_snippet(&mut self, idx: usize) -> (r: Result<(), AppError>)
        requires
            old(self).wf(),
        ensures
            final(self).wf(),
            idx < old(self).snippets@.len() ==> r is Ok && final(self).snippets@ == old(
                self,
            ).snippets@.remove(idx as int) && final(self).categories_view() == remove_from_index(
                old(self).categories_view(),
                idx,
            ),
            idx >= old(self).snippets@.len() ==> r == Err::<(), AppError>(AppError::OutOfRange)
                && *final(self) == *old(self),
            final(self).state == old(self).state,
            final(self).input == old(self).input,
            final(self).input_mode == old(self).input_mode,
    {
        if idx >= self.snippets.len() {
            return Err(AppError::OutOfRange);
        }
        let ghost cats = self.categories_view();
        let ghost target = remove_from_index(cats, idx);
        let mut c: usize = 0;
        while c < self.categories.len()
            invariant
                c <= self.categories.len(),
                self.categories.len() == cats.len(),
                cats == old(self).categories_view(),
                target == remove_from_index(cats, idx),
                idx < self.snippets.len(),
                self.snippets == old(self).snippets,
                self.state == old(self).state,
                self.input == old(self).input,
                self.input_mode == old(self).input_mode,
                forall|j: int| 0 <= j < c ==> #[trigger] self.categories_view()[j] == target[j],
                forall|j: int| c <= j < cats.len() ==> #[trigger] self.categories_view()[j] == cats[j],
            decreases self.categories.len() - c,
        {
            let shifted = shifted_indices(&self.categories[c].indices, idx);
            let ghost before = self.categories@;
            let ghost before_view = self.categories_view();
            assert(self.categories_view().len() == cats.len());
            assert(self.categories_view()[c as int] == self.categories@[c as int]@);
            assert(self.categories_view()[c as int] == cats[c as int]);
            assert(before[c as int]@ == cats[c as int]);
            self.categories[c].indices = shifted;
            assert(self.categories@ == before.update(c as int, self.categories@[c as int]));
            assert(self.categories@[c as int].name == before[c as int].name);
            assert(self.categories@[c as int].indices@ == shift_out(before[c as int].indices@, idx));
            assert(target[c as int] == CategoryView { name: cats[c as int].name, indices: shift_out(cats[c as int].indices, idx) });
            assert(self.categories_view()[c as int] == target[c as int]);
            assert forall|j: int| 0 <= j < cats.len() && j != c implies #[trigger] self.categories_view()[j]
                == before_view[j] by {}
            c += 1;
        }
        assert(self.categories_view() =~= target) by {
            assert(c == cats.len());
            assert forall|j: int| 0 <= j < cats.len() implies #[trigger] self.categories_view()[j]
                == target[j] by {}
        }
        proof {
            lemma_remove_consistent(cats, self.snippets@, idx as int);
        }
        self.snippets.remove(idx);
        Ok(())
    }

    /// Persistence is not part of the state model.
    pub fn save(self) {
    }

    /// The text of the search buffer.
    pub fn search_value(&self) -> (r: &str)
        ensures
            r@ == self.search_text(),
    {
        text_of(&self.input)
    }

    /// The cursor of the search buffer, in characters.
    pub fn search_position(&self) -> (r: usize)
        ensures
            r == self.search_cursor(),
    {
        cursor_of(&self.input)
    }

    /// Handles one event of the main loop and says whether the loop goes on.
    /// A tick changes nothing; a key goes through the input-mode machine, and an
    /// editing request goes to the search buffer. Enter and Escape both return
    /// to normal mode and leave the buffer as it is. A character is inserted
    /// only while the cursor can still move past it.
    pub fn handle_event(&mut self, ev: Event<KeyInput>) -> (running: bool)
        requires
            old(self).wf(),
        ensures
            final(self).wf(),
            final(self).snippets == old(self).snippets,
            final(self).categories == old(self).categories,
            final(self).state == old(self).state,
            match ev {
                Event::Tick => running && *final(self) == *old(self),
                Event::Input(k) => {
                    let (m, a) = transition_spec(old(self).input_mode, k);
                    &&& final(self).input_mode == m
                    &&& running == (a != Action::Quit)
                    &&& match a {
                        Action::Edit(req) => if req is InsertChar && old(self).search_cursor()
                            == usize::MAX {
                            final(self).input == old(self).input
                        } else {
                            &&& final(self).search_text() == edit_text(
                                old(self).search_text(),
                                old(self).search_cursor(),
                                req,
                            )
                            &&& final(self).search_cursor() == edit_cursor(
                                old(self).search_text(),
                                old(self).search_cursor(),
                                req,
                            )
                        },
                        _ => final(self).input == old(self).input,
                    }
                },
            },
    {
        match ev {
            Event::Tick => true,
            Event::Input(k) => {
                let (m, a) = transition(self.input_mode, k);
                self.input_mode = m;
                match a {
                    Action::Quit => false,
                    Action::Continue => true,
                    Action::Edit(req) => {
                        let cur = cursor_of(&self.input);
                        let insert = matches!(req, InputRequest::InsertChar(_));
                        if !insert || cur < usize::MAX {
                            apply_edit(&mut self.input, req);
                        }
                        true
                    },
                }
            },
        }
    }
}

impl Default for App {
    /// A fresh state: no snippets, only the empty "No category" entry, the
    /// main screen, an empty search buffer and normal mode.
    fn default() -> (r: App)
        ensures
            r.wf(),
            r.snippets@.len() == 0,
            r.categories_view() == seq![CategoryView { name: no_category(), indices: Seq::empty() }],
            r.state == State::Main,
            r.input_mode == AppInputMode::Normal,
            r.search_text().len() == 0,
            r.search_cursor() == 0,
    {
        let mut categories: Vec<Category> = Vec::new();
        categories.push(Category { name: String::from_str("No category"), indices: Vec::new() });
        let r = App {
            state: State::Main,
            snippets: Vec::new(),
            categories,
            input: empty_buffer(),
            input_mode: AppInputMode::Normal,
        };
        assert(r.categories_view() =~= seq![CategoryView { name: no_category(), indices: Seq::empty() }]);
        r
    }
}

} // verus!
