//! The application state and its two-mode input state machine: Insert
//! mode edits the query, Normal mode moves through the results.
use vstd::prelude::*;
use vstd::string::*;
use vstd::arithmetic::div_mod::{
    lemma_add_mod_noop,
    lemma_mod_add_multiples_vanish,
    lemma_mod_self_0,
    lemma_mod_sub_multiples_vanish,
    lemma_small_mod,
    lemma_sub_mod_noop,
};

use crate::arxiv::{entries_view, feed_records, parse, xml_document, Entry, SearchError};
use crate::text::{build_request_url, encode_query, encoded, request_url};

verus! {

/// What the interaction loop receives: a key press or a redraw tick.
pub enum Event<I> {
    Input(I),
    Tick,
}

/// The pages of the application's menu.
#[derive(PartialEq, Eq, Structural, Clone, Copy, Debug)]
pub enum MenuItem {
    Home,
    Search,
    Favorites,
    Settings,
}

impl From<MenuItem> for usize {
    fn from(input: MenuItem) -> (r: usize) {
        match input {
            MenuItem::Home => 0,
            MenuItem::Search => 1,
            MenuItem::Favorites => 2,
            MenuItem::Settings => 3,
        }
    }
}

impl vstd::std_specs::convert::FromSpecImpl<MenuItem> for usize {
    open spec fn obeys_from_spec() -> bool {
        true
    }

    open spec fn from_spec(v: MenuItem) -> usize {
        match v {
            MenuItem::Home => 0,
            MenuItem::Search => 1,
            MenuItem::Favorites => 2,
            MenuItem::Settings => 3,
        }
    }
}

/// The input mode.
#[derive(PartialEq, Eq, Structural, Clone, Copy, Debug)]
pub enum InputState {
    NormalMode,
    InsertMode,
}

impl InputState {
    /// The text of the mode line for this mode.
    pub fn to_string(&self) -> (r: String)
        ensures
            *self == InputState::NormalMode ==> r@ == "= NORMAL MODE = (Select a paper)"@,
            *self == InputState::InsertMode ==> r@ == "= INSERT MODE = (Search for results)"@,
    {
        match self {
            InputState::NormalMode => String::from_str("= NORMAL MODE = (Select a paper)"),
            InputState::InsertMode => String::from_str("= INSERT MODE = (Search for results)"),
        }
    }
}

/// The panels of the home page.
#[derive(PartialEq, Eq, Structural, Clone, Copy, Debug)]
pub enum HomePanel {
    SearchBar,
    ListView,
}

/// A key press, as the state machine tells keys apart.
#[derive(PartialEq, Eq, Structural, Clone, Copy, Debug)]
pub enum Key {
    Char(char),
    Enter,
    Esc,
    Backspace,
    Up,
    Down,
    Other,
}

/// What the interaction loop is to do after a key press.
#[derive(Debug)]
pub enum Action {
    /// Nothing beyond a redraw.
    Nothing,
    /// Restore the terminal and stop.
    Quit,
    /// Fetch this URL and hand the outcome to `TuiState::search`.
    Search(String),
    /// Open this PDF link in an external viewer.
    Open(String),
}

/// The selection after moving one step down a list of `len` results.
pub open spec fn next_index(i: nat, len: nat) -> nat {
    if i + 1 >= len {
        0
    } else {
        i + 1
    }
}

/// The selection after moving one step up a list of `len` results.
pub open spec fn prev_index(i: nat, len: nat) -> nat {
    if i == 0 || i >= len {
        (len - 1) as nat
    } else {
        (i - 1) as nat
    }
}

/// The whole state of the application, owned by the interaction loop.
pub struct TuiState {
    pub page: MenuItem,
    /// The query text.
    pub input: String,
    pub input_state: InputState,
    /// The index of the selected result.
    pub selected: usize,
    pub active_home_panel: HomePanel,
    /// The results of the last search that succeeded, if any.
    pub data: Option<Vec<Entry>>,
    /// Why the last search failed, if it did.
    pub status: Option<SearchError>,
}

impl Default for TuiState {
    fn default() -> (r: TuiState)
        ensures
            r.page == MenuItem::Home,
            r.input@ == Seq::<char>::empty(),
            r.input_state == InputState::InsertMode,
            r.selected == 0,
            r.active_home_panel == HomePanel::SearchBar,
            r.data is None,
            r.status is None,
            r.wf(),
    {
        TuiState {
            page: MenuItem::Home,
            input: String::new(),
            input_state: InputState::InsertMode,
            selected: 0,
            active_home_panel: HomePanel::SearchBar,
            data: None,
            status: None,
        }
    }
}

impl TuiState {
    /// The number of results held.
    pub open spec fn result_count(&self) -> nat {
        match self.data {
            Some(v) => v@.len(),
            None => 0,
        }
    }

    /// The selection is a valid index whenever there are results.
    pub open spec fn wf(&self) -> bool {
        self.result_count() > 0 ==> self.selected < self.result_count()
    }

    /// The state with the input mode set to `m`.
    pub open spec fn with_mode(self, m: InputState) -> TuiState {
        TuiState { input_state: m, ..self }
    }

    /// The state after moving the selection one step down.
    pub open spec fn advanced(self) -> TuiState {
        if self.result_count() == 0 {
            self
        } else {
            TuiState { selected: next_index(self.selected as nat, self.result_count()) as usize, ..self }
        }
    }

    /// The state after moving the selection one step up.
    pub open spec fn retreated(self) -> TuiState {
        if self.result_count() == 0 {
            self
        } else {
            TuiState { selected: prev_index(self.selected as nat, self.result_count()) as usize, ..self }
        }
    }

    /// The two states agree on everything but the query text.
    pub open spec fn same_but_input(&self, o: &TuiState) -> bool {
        &&& self.page == o.page
        &&& self.input_state == o.input_state
        &&& self.selected == o.selected
        &&& self.active_home_panel == o.active_home_panel
        &&& self.data == o.data
        &&& self.status == o.status
    }

    /// The two states agree on everything but the results, the selection
    /// and the status.
    pub open spec fn same_but_results(&self, o: &TuiState) -> bool {
        &&& self.page == o.page
        &&& self.input == o.input
        &&& self.input_state == o.input_state
        &&& self.active_home_panel == o.active_home_panel
    }

    /// The number of results held.
    pub fn data_len(&self) -> (r: usize)
        ensures
            r == self.result_count(),
    {
        match &self.data {
            Some(data) => data.len(),
            None => 0,
        }
    }

    /// The selected result, if the selection points at one.
    pub fn get_selected_entry(&self) -> (r: Option<&Entry>)
        ensures
            r is Some <==> self.selected < self.result_count(),
            r is Some ==> r->Some_0 == self.data->Some_0@[self.selected as int],
    {
        match &self.data {
            Some(data) => {
                if self.selected < data.len() {
                    Some(&data[self.selected])
                } else {
                    None
                }
            },
            None => None,
        }
    }

    /// The query text escaped for a request URL.
    pub fn get_query_str(&self) -> (r: String)
        ensures
            r@ == encoded(self.input@),
    {
        encode_query(self.input.as_str())
    }

    /// The URL that asks for `max` results for the query from offset `start`.
    pub fn request_url(&self, start: u32, max: u32) -> (r: String)
        ensures
            r@ == request_url(self.input@, start as nat, max as nat),
    {
        build_request_url(self.input.as_str(), start, max)
    }

    /// Moves the selection one step down, from the last result to the
    /// first; does nothing where there are no results.
    pub fn select_next(&mut self)
        ensures
            *final(self) == old(self).advanced(),
            old(self).result_count() == 0 ==> *final(self) == *old(self),
            old(self).result_count() > 0 ==> final(self).selected < final(self).result_count(),
    {
        let n = self.data_len();
        if n > 0 {
            if self.selected >= n - 1 {
                self.selected = 0;
            } else {
                self.selected = self.selected + 1;
            }
        }
    }

    /// Moves the selection one step up, from the first result to the
    /// last; does nothing where there are no results.
    pub fn select_previous(&mut self)
        ensures
            *final(self) == old(self).retreated(),
            old(self).result_count() == 0 ==> *final(self) == *old(self),
            old(self).result_count() > 0 ==> final(self).selected < final(self).result_count(),
    {
        let n = self.data_len();
        if n > 0 {
            if self.selected == 0 || self.selected >= n {
                self.selected = n - 1;
            } else {
                self.selected = self.selected - 1;
            }
        }
    }

    /// Takes in the outcome of a search: a result list replaces the one
    /// held and selects its first record; a failure is kept as the status
    /// and leaves the results as they were.
    pub fn show_results(&mut self, outcome: Result<Vec<Entry>, SearchError>)
        ensures
            final(self).same_but_results(old(self)),
            match outcome {
                Ok(v) => final(self).data == Some(v) && final(self).selected == 0
                    && final(self).status is None,
                Err(e) => final(self).data == old(self).data && final(self).selected == old(self).selected
                    && final(self).status == Some(e),
            },
            old(self).wf() ==> final(self).wf(),
    {
        match outcome {
            Ok(v) => {
                self.data = Some(v);
                self.selected = 0;
                self.status = None;
            },
            Err(e) => {
                self.status = Some(e);
            },
        }
    }

    /// Takes in the response to the request of `request_url`: the body of
    /// the feed, or why it could not be had.
    pub fn search(&mut self, response: Result<String, SearchError>)
        ensures
            final(self).same_but_results(old(self)),
            response is Err ==> final(self).data == old(self).data
                && final(self).selected == old(self).selected
                && final(self).status == Some(response->Err_0),
            response is Ok && xml_document(response->Ok_0@) is None
                ==> final(self).data == old(self).data
                && final(self).selected == old(self).selected
                && final(self).status == Some(SearchError::MalformedFeed),
            response is Ok && xml_document(response->Ok_0@) is Some
                ==> final(self).data is Some
                && entries_view(final(self).data->Some_0@) == feed_records(xml_document(response->Ok_0@)->Some_0)
                && final(self).selected == 0
                && final(self).status is None,
            old(self).wf() ==> final(self).wf(),
    {
        match response {
            Ok(body) => {
                let outcome = parse(body.as_str());
                self.show_results(outcome);
            },
            Err(e) => self.show_results(Err(e)),
        }
    }

    /// The state after moving the selection `k` steps down.
    pub open spec fn advanced_times(self, k: nat) -> TuiState
        decreases k,
    {
        if k == 0 {
            self
        } else {
            self.advanced_times((k - 1) as nat).advanced()
        }
    }

    /// The state after moving the selection `k` steps up.
    pub open spec fn retreated_times(self, k: nat) -> TuiState
        decreases k,
    {
        if k == 0 {
            self
        } else {
            self.retreated_times((k - 1) as nat).retreated()
        }
    }

    /// Handles one key press and says what the interaction loop is to do.
    /// In Insert mode keys edit the query, Escape leaves for Normal mode and
    /// Enter submits the query and leaves for Normal mode; in Normal mode
    /// `j`/Down and `k`/Up move the selection, `i`, `s` and `/` go back to
    /// Insert mode, Enter opens the selected paper and `q` quits.
    pub fn handle_key(&mut self, key: Key) -> (r: Action)
        ensures
            old(self).input_state == InputState::InsertMode ==> {
                if key == Key::Esc {
                    *final(self) == old(self).with_mode(InputState::NormalMode) && r is Nothing
                } else if key == Key::Enter {
                    &&& *final(self) == old(self).with_mode(InputState::NormalMode)
                    &&& r matches Action::Search(u) && u@ == request_url(old(self).input@, 0, 10)
                } else if key == Key::Backspace {
                    &&& final(self).input@ == if old(self).input@.len() > 0 {
                        old(self).input@.drop_last()
                    } else {
                        old(self).input@
                    }
                    &&& final(self).same_but_input(old(self))
                    &&& r is Nothing
                } else if key is Char {
                    &&& final(self).input@ == old(self).input@.push(key->Char_0)
                    &&& final(self).same_but_input(old(self))
                    &&& r is Nothing
                } else {
                    *final(self) == *old(self) && r is Nothing
                }
            },
            old(self).input_state == InputState::NormalMode ==> {
                if key == Key::Char('q') {
                    *final(self) == *old(self) && r is Quit
                } else if key == Key::Char('j') || key == Key::Down {
                    *final(self) == old(self).advanced() && r is Nothing
                } else if key == Key::Char('k') || key == Key::Up {
                    *final(self) == old(self).retreated() && r is Nothing
                } else if key == Key::Char('i') || key == Key::Char('s') || key == Key::Char('/') {
                    *final(self) == old(self).with_mode(InputState::InsertMode) && r is Nothing
                } else if key == Key::Enter {
                    &&& *final(self) == *old(self)
                    &&& old(self).selected < old(self).result_count() ==> (r matches Action::Open(l)
                        && l@ == old(self).data->Some_0@[old(self).selected as int].pdf_link@)
                    &&& old(self).selected >= old(self).result_count() ==> r is Nothing
                } else {
                    *final(self) == *old(self) && r is Nothing
                }
            },
            old(self).wf() ==> final(self).wf(),
    {
        match self.input_state {
            InputState::NormalMode => match key {
                Key::Char('q') => Action::Quit,
                Key::Char('j') | Key::Down => {
                    self.select_next();
                    Action::Nothing
                },
                Key::Char('k') | Key::Up => {
                    self.select_previous();
                    Action::Nothing
                },
                Key::Char('i') | Key::Char('s') | Key::Char('/') => {
                    self.input_state = InputState::InsertMode;
                    Action::Nothing
                },
                Key::Enter => match self.get_selected_entry() {
                    Some(e) => Action::Open(e.pdf_link.clone()),
                    None => Action::Nothing,
                },
                _ => Action::Nothing,
            },
            InputState::InsertMode => match key {
                Key::Esc => {
                    self.input_state = InputState::NormalMode;
                    Action::Nothing
                },
                Key::Backspace => {
                    let _ = self.input.pop();
                    Action::Nothing
                },
                Key::Char(c) => {
                    self.input.push(c);
                    Action::Nothing
                },
                Key::Enter => {
                    let url = self.request_url(0, 10);
                    self.input_state = InputState::NormalMode;
                    Action::Search(url)
                },
                _ => Action::Nothing,
            },
        }
    }
}

proof fn lemma_advanced_times(s: TuiState, k: nat)
    requires
        s.wf(),
        0 < s.result_count() <= usize::MAX,
    ensures
        s.advanced_times(k) == (TuiState {
            selected: ((s.selected + k) % (s.result_count() as int)) as usize,
            ..s
        }),
    decreases k,
{
    let n = s.result_count() as int;
    if k == 0 {
        lemma_small_mod(s.selected as nat, n as nat);
    } else {
        lemma_advanced_times(s, (k - 1) as nat);
        let x = (s.selected + k - 1) % n;
        lemma_add_mod_noop(s.selected + k - 1, 1, n);
        if n == 1 {
            assert(x == 0);
            assert(1int % 1 == 0);
        } else {
            lemma_small_mod(1, n as nat);
            if x + 1 == n {
                lemma_mod_self_0(n);
            } else {
                lemma_small_mod((x + 1) as nat, n as nat);
            }
        }
    }
}

proof fn lemma_retreated_times(s: TuiState, k: nat)
    requires
        s.wf(),
        0 < s.result_count() <= usize::MAX,
    ensures
        s.retreated_times(k) == (TuiState {
            selected: ((s.selected - k) % (s.result_count() as int)) as usize,
            ..s
        }),
    decreases k,
{
    let n = s.result_count() as int;
    if k == 0 {
        lemma_small_mod(s.selected as nat, n as nat);
    } else {
        lemma_retreated_times(s, (k - 1) as nat);
        let x = (s.selected - (k - 1)) % n;
        lemma_sub_mod_noop(s.selected - (k - 1), 1, n);
        assert(s.selected - (k - 1) - 1 == s.selected - k);
        if n == 1 {
            assert(x == 0);
            assert(1int % 1 == 0);
        } else {
            lemma_small_mod(1, n as nat);
            if x == 0 {
                lemma_mod_add_multiples_vanish(-1, n);
                lemma_small_mod((n - 1) as nat, n as nat);
            } else {
                lemma_small_mod((x - 1) as nat, n as nat);
            }
        }
    }
}

/// Moving the selection down as many times as there are results comes
/// back to the same state, whatever result was selected.
pub proof fn lemma_advance_cycles(s: TuiState)
    requires
        s.wf(),
        0 < s.result_count() <= usize::MAX,
    ensures
        s.advanced_times(s.result_count()) == s,
{
    let n = s.result_count() as int;
    lemma_advanced_times(s, s.result_count());
    lemma_mod_add_multiples_vanish(s.selected as int, n);
    lemma_small_mod(s.selected as nat, n as nat);
}

/// Moving the selection up as many times as there are results comes
/// back to the same state, whatever result was selected.
pub proof fn lemma_retreat_cycles(s: TuiState)
    requires
        s.wf(),
        0 < s.result_count() <= usize::MAX,
    ensures
        s.retreated_times(s.result_count()) == s,
{
    let n = s.result_count() as int;
    lemma_retreated_times(s, s.result_count());
    lemma_mod_sub_multiples_vanish(s.selected as int, n);
    lemma_small_mod(s.selected as nat, n as nat);
}

} // verus!
