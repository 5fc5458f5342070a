//! Descriptor parsing: turns one descriptor file's text into a launchable
//! entry, or into one synthetic entry per declared action.
//!
//! A descriptor is scanned line by line. Keys are read only while the scan
//! stands inside the target section — `[Desktop Entry]` for the application
//! itself, `[Desktop Action <name>]` for an action — and any further
//! `[Desktop` header closes that section. The first occurrence of a key wins.

use vstd::prelude::*;
use vstd::string::StrSliceExecFns;
use vstd::string::StringExecFns;

use crate::text::{
    has_prefix, str_eq, trim_prefix_all, eq_true_ci, remove_field_code, split_lines,
    split_semicolons, strip_all, is_true_ci, strip_field_code, spec_lines, split_semi,
};

verus! {

/// Why a descriptor (or one of its actions) yields no entry.
#[derive(Clone, Copy, Debug, PartialEq, Eq, Structural)]
pub enum ParseError {
    /// An action was requested under an empty name.
    EmptyAction,
    /// The target section says `NoDisplay=true`.
    Hidden,
    /// The target section holds no `Exec=` line.
    NoCommand,
}

/// One launchable entry: an application, or one of its declared actions.
#[derive(Debug, Clone)]
#[verifier::ext_equal]
pub struct App {
    /// Display name; never empty: "Unknown" when the descriptor names
    /// none, or names it empty.
    pub name: String,
    /// Command to run, with its last field code stripped; never empty.
    pub command: String,
    /// Free-text description; empty when absent.
    pub description: String,
    /// Whether the command expects a terminal.
    pub is_terminal: bool,
    /// Directory to run the command from, when the descriptor sets one.
    pub path: Option<String>,
    /// Fuzzy match score against the current query; transient.
    pub score: i64,
    /// Times this entry was launched, read from the history store.
    pub history: u64,
    /// Action identifiers declared by the descriptor, base entries only.
    pub actions: Option<Vec<String>>,
}

/// The mathematical value of an [`App`].
#[verifier::ext_equal]
pub struct AppView {
    pub name: Seq<char>,
    pub command: Seq<char>,
    pub description: Seq<char>,
    pub is_terminal: bool,
    pub path: Option<Seq<char>>,
    pub score: int,
    pub history: nat,
    pub actions: Option<Seq<Seq<char>>>,
}

/// View of an optional string.
pub open spec fn opt_str_view(o: Option<String>) -> Option<Seq<char>> {
    match o {
        Option::Some(s) => Option::Some(s@),
        Option::None => Option::None,
    }
}

/// View of an optional list of strings.
pub open spec fn opt_vec_view(o: Option<Vec<String>>) -> Option<Seq<Seq<char>>> {
    match o {
        Option::Some(v) => Option::Some(v@.map_values(|l: String| l@)),
        Option::None => Option::None,
    }
}

impl View for App {
    type V = AppView;

    open spec fn view(&self) -> AppView {
        AppView {
            name: self.name@,
            command: self.command@,
            description: self.description@,
            is_terminal: self.is_terminal,
            path: opt_str_view(self.path),
            score: self.score as int,
            history: self.history as nat,
            actions: opt_vec_view(self.actions),
        }
    }
}

impl App {
    /// Builds an entry with the given display fields, no score and no
    /// recorded launches.
    pub fn new(
        name: String,
        command: String,
        description: String,
        is_terminal: bool,
        path: Option<String>,
    ) -> (r: App)
        ensures
            r@.name == name@,
            r@.command == command@,
            r@.description == description@,
            r@.is_terminal == is_terminal,
            r@.path == opt_str_view(path),
            r@.score == 0,
            r@.history == 0,
            r@.actions is None,
    {
        App { name, command, description, is_terminal, path, score: 0, history: 0, actions: None }
    }

}

/// A named action of an application, used to select the descriptor
/// section `[Desktop Action <name>]`.
pub struct Action {
    /// The action's identifier inside the descriptor.
    pub name: String,
    /// The owning application's display name.
    pub from: String,
}

impl Default for Action {
    /// An action with empty identifier and owner.
    fn default() -> (r: Self)
        ensures
            r.name@ == Seq::<char>::empty(),
            r.from@ == Seq::<char>::empty(),
    {
        Action { name: String::new(), from: String::new() }
    }
}

impl Action {
    /// Sets the action's identifier.
    pub fn name(self, name: &str) -> (r: Self)
        ensures
            r.name@ == name@,
            r.from == self.from,
    {
        Action { name: name.to_owned(), from: self.from }
    }

    /// Sets the owning application's name.
    pub fn from(self, from: &str) -> (r: Self)
        ensures
            r.from@ == from@,
            r.name == self.name,
    {
        Action { name: self.name, from: from.to_owned() }
    }
}

/// The scan's running state: the keys read so far, whether the scan
/// stands inside the target section, and whether the entry was hidden.
#[verifier::ext_equal]
pub struct ScanState {
    pub name: Option<Seq<char>>,
    pub cmd: Option<Seq<char>>,
    pub desc: Option<Seq<char>>,
    pub term: bool,
    pub path: Option<Seq<char>>,
    pub actions: Option<Seq<Seq<char>>>,
    pub search: bool,
    pub hidden: bool,
}

/// The state before any line is read.
pub open spec fn init_state() -> ScanState {
    ScanState {
        name: Option::None,
        cmd: Option::None,
        desc: Option::None,
        term: false,
        path: Option::None,
        actions: Option::None,
        search: false,
        hidden: false,
    }
}

/// How one line changes the scan state. `pattern` is the target section
/// header; `from` is the owning application's name when an action is parsed.
pub open spec fn scan_step(
    st: ScanState,
    line: Seq<char>,
    pattern: Seq<char>,
    from: Option<Seq<char>>,
) -> ScanState {
    if st.hidden {
        st
    } else {
        let st1 = if "[Desktop"@.is_prefix_of(line) && st.search {
            ScanState { search: false, ..st }
        } else {
            st
        };
        let st2 = if line == pattern {
            ScanState { search: true, ..st1 }
        } else {
            st1
        };
        if st2.search {
            if "Name="@.is_prefix_of(line) && st2.name is None {
                let value = strip_all(line, "Name="@);
                let full = match from {
                    Option::Some(f) => f + " ("@ + value + ")"@,
                    Option::None => value,
                };
                ScanState { name: Option::Some(full), ..st2 }
            } else if "Comment="@.is_prefix_of(line) && st2.desc is None {
                ScanState { desc: Option::Some(strip_all(line, "Comment="@)), ..st2 }
            } else if "Terminal="@.is_prefix_of(line) {
                if strip_all(line, "Terminal="@) == "true"@ {
                    ScanState { term: true, ..st2 }
                } else {
                    st2
                }
            } else if "Exec="@.is_prefix_of(line) && st2.cmd is None {
                ScanState {
                    cmd: Option::Some(strip_field_code(strip_all(line, "Exec="@))),
                    ..st2
                }
            } else if "NoDisplay="@.is_prefix_of(line) {
                if is_true_ci(strip_all(line, "NoDisplay="@)) {
                    ScanState { hidden: true, ..st2 }
                } else {
                    st2
                }
            } else if "Path="@.is_prefix_of(line) && st2.path is None {
                ScanState { path: Option::Some(strip_all(line, "Path="@)), ..st2 }
            } else if "Actions="@.is_prefix_of(line) && st2.actions is None && from is None {
                ScanState { actions: Option::Some(split_semi(strip_all(line, "Actions="@))), ..st2 }
            } else {
                st2
            }
        } else {
            st2
        }
    }
}

/// The scan state after reading all of `lines` in order.
pub open spec fn scan(lines: Seq<Seq<char>>, pattern: Seq<char>, from: Option<Seq<char>>) -> ScanState
    decreases lines.len(),
{
    if lines.len() == 0 {
        init_state()
    } else {
        scan_step(scan(lines.drop_last(), pattern, from), lines.last(), pattern, from)
    }
}

/// The section header that selects action `name`.
pub open spec fn action_pattern(name: Seq<char>) -> Seq<char> {
    "[Desktop Action "@ + name + "]"@
}

/// What parsing a descriptor returns: the entry read from the target
/// section, or the error that discards it. `action` carries the action's
/// identifier and the owning application's name. A command that is empty
/// after field-code stripping counts as no command, and an empty name
/// falls back to "Unknown".
pub open spec fn parse_spec(contents: Seq<char>, action: Option<(Seq<char>, Seq<char>)>) -> Result<
    AppView,
    ParseError,
> {
    if action is Some && action->Some_0.0.len() == 0 {
        Result::Err(ParseError::EmptyAction)
    } else {
        let pattern = match action {
            Option::Some(a) => action_pattern(a.0),
            Option::None => "[Desktop Entry]"@,
        };
        let from = match action {
            Option::Some(a) => Option::Some(a.1),
            Option::None => Option::None,
        };
        let st = scan(spec_lines(contents), pattern, from);
        if st.hidden {
            Result::Err(ParseError::Hidden)
        } else {
            match st.cmd {
                Option::None => Result::Err(ParseError::NoCommand),
                Option::Some(c) => if c.len() == 0 {
                    Result::Err(ParseError::NoCommand)
                } else {
                    Result::Ok(
                        AppView {
                            name: match st.name {
                                Option::Some(n) => if n.len() == 0 {
                                    "Unknown"@
                                } else {
                                    n
                                },
                                Option::None => "Unknown"@,
                            },
                            command: c,
                            description: match st.desc {
                                Option::Some(d) => d,
                                Option::None => Seq::empty(),
                            },
                            is_terminal: st.term,
                            path: st.path,
                            score: 0,
                            history: 0,
                            actions: st.actions,
                        },
                    )
                },
            }
        }
    }
}

/// The view of the optional action argument to `parse`.
pub open spec fn action_arg_view(action: Option<&Action>) -> Option<(Seq<char>, Seq<char>)> {
    match action {
        Option::Some(a) => Option::Some((a.name@, a.from@)),
        Option::None => Option::None,
    }
}

impl App {
    /// Parses an application descriptor, or, when `action` is given, the
    /// named action of it, into an entry.
    pub fn parse(contents: &str, action: Option<&Action>) -> (r: Result<App, ParseError>)
        ensures
            match r {
                Result::Ok(app) => parse_spec(contents@, action_arg_view(action)) == Result::Ok::<
                    AppView,
                    ParseError,
                >(app@),
                Result::Err(e) => parse_spec(contents@, action_arg_view(action)) == Result::Err::<
                    AppView,
                    ParseError,
                >(e),
            },
    {
        proof {
            reveal_strlit("[Desktop");
            reveal_strlit("[Desktop Entry]");
            reveal_strlit("[Desktop Action ");
            reveal_strlit("]");
            reveal_strlit("Name=");
            reveal_strlit("Comment=");
            reveal_strlit("Terminal=");
            reveal_strlit("true");
            reveal_strlit("Exec=");
            reveal_strlit("NoDisplay=");
            reveal_strlit("Path=");
            reveal_strlit("Actions=");
            reveal_strlit(" (");
            reveal_strlit(")");
            reveal_strlit("Unknown");
        }
        let pattern: String = match action {
            Option::Some(a) => {
                if a.name.as_str().is_empty() {
                    return Result::Err(ParseError::EmptyAction);
                }
                String::from_str("[Desktop Action ").concat(a.name.as_str()).concat("]")
            },
            Option::None => String::from_str("[Desktop Entry]"),
        };
        let ghost fromv: Option<Seq<char>> = match action {
            Option::Some(a) => Option::Some(a.from@),
            Option::None => Option::None,
        };
        let lines = split_lines(contents);
        let ghost ls = spec_lines(contents@);

        let mut name: Option<String> = Option::None;
        let mut cmd: Option<String> = Option::None;
        let mut desc: Option<String> = Option::None;
        let mut term: bool = false;
        let mut path: Option<String> = Option::None;
        let mut actions: Option<Vec<String>> = Option::None;
        let mut search: bool = false;
        let mut hidden: bool = false;

        let mut i: usize = 0;
        proof {
            assert(ls.take(0) =~= Seq::<Seq<char>>::empty());
        }
        while i < lines.len()
            invariant
                0 <= i <= lines.len(),
                lines@.map_values(|l: String| l@) == ls,
                fromv == (match action {
                    Option::Some(a) => Option::Some(a.from@),
                    Option::None => Option::None::<Seq<char>>,
                }),
                (ScanState {
                    name: opt_str_view(name),
                    cmd: opt_str_view(cmd),
                    desc: opt_str_view(desc),
                    term: term,
                    path: opt_str_view(path),
                    actions: opt_vec_view(actions),
                    search: search,
                    hidden: hidden,
                }) == scan(ls.take(i as int), pattern@, fromv),
            decreases lines.len() - i,
        {
            let ghost st_prev = scan(ls.take(i as int), pattern@, fromv);
            let line: &String = &lines[i];
            proof {
                reveal_strlit("[Desktop");
                reveal_strlit("Name=");
                reveal_strlit("Comment=");
                reveal_strlit("Terminal=");
                reveal_strlit("true");
                reveal_strlit("Exec=");
                reveal_strlit("NoDisplay=");
                reveal_strlit("Path=");
                reveal_strlit("Actions=");
                reveal_strlit(" (");
                reveal_strlit(")");
                assert(ls[i as int] == line@);
                assert(ls.take(i + 1).drop_last() =~= ls.take(i as int));
                assert(ls.take(i + 1).last() == ls[i as int]);
                assert(scan(ls.take(i + 1), pattern@, fromv) == scan_step(
                    st_prev,
                    line@,
                    pattern@,
                    fromv,
                ));
            }
            if !hidden {
                if has_prefix(line.as_str(), "[Desktop") && search {
                    search = false;
                }
                if str_eq(line.as_str(), pattern.as_str()) {
                    search = true;
                }
                if search {
                    if has_prefix(line.as_str(), "Name=") && name.is_none() {
                        let value = trim_prefix_all(line.as_str(), "Name=");
                        match action {
                            Option::Some(a) => {
                                let full = a.from.clone().concat(" (").concat(value).concat(")");
                                name = Option::Some(full);
                            },
                            Option::None => {
                                name = Option::Some(value.to_owned());
                            },
                        }
                    } else if has_prefix(line.as_str(), "Comment=") && desc.is_none() {
                        let value = trim_prefix_all(line.as_str(), "Comment=");
                        desc = Option::Some(value.to_owned());
                    } else if has_prefix(line.as_str(), "Terminal=") {
                        let value = trim_prefix_all(line.as_str(), "Terminal=");
                        if str_eq(value, "true") {
                            term = true;
                        }
                    } else if has_prefix(line.as_str(), "Exec=") && cmd.is_none() {
                        let value = trim_prefix_all(line.as_str(), "Exec=");
                        cmd = Option::Some(remove_field_code(value));
                    } else if has_prefix(line.as_str(), "NoDisplay=") {
                        let value = trim_prefix_all(line.as_str(), "NoDisplay=");
                        if eq_true_ci(value) {
                            hidden = true;
                        }
                    } else if has_prefix(line.as_str(), "Path=") && path.is_none() {
                        let value = trim_prefix_all(line.as_str(), "Path=");
                        path = Option::Some(value.to_owned());
                    } else if has_prefix(line.as_str(), "Actions=") && actions.is_none()
                        && action.is_none() {
                        let value = trim_prefix_all(line.as_str(), "Actions=");
                        actions = Option::Some(split_semicolons(value));
                    }
                }
            }
            proof {
                assert((ScanState {
                    name: opt_str_view(name),
                    cmd: opt_str_view(cmd),
                    desc: opt_str_view(desc),
                    term: term,
                    path: opt_str_view(path),
                    actions: opt_vec_view(actions),
                    search: search,
                    hidden: hidden,
                }) =~~= scan_step(st_prev, line@, pattern@, fromv));
            }
            i = i + 1;
        }
        proof {
            assert(ls.take(lines@.len() as int) =~= ls);
        }
        let ghost st = scan(ls, pattern@, fromv);

        if hidden {
            return Result::Err(ParseError::Hidden);
        }
        let command = match cmd {
            Option::Some(e) => e,
            Option::None => {
                return Result::Err(ParseError::NoCommand);
            },
        };
        if command.as_str().is_empty() {
            return Result::Err(ParseError::NoCommand);
        }
        let final_name = match name {
            Option::Some(n) => {
                if n.as_str().is_empty() {
                    String::from_str("Unknown")
                } else {
                    n
                }
            },
            Option::None => String::from_str("Unknown"),
        };
        let description = match desc {
            Option::Some(d) => d,
            Option::None => String::new(),
        };
        let app = App {
            name: final_name,
            command,
            description,
            is_terminal: term,
            path,
            score: 0,
            history: 0,
            actions,
        };
        proof {
            assert(parse_spec(contents@, action_arg_view(action)) == Result::Ok::<
                AppView,
                ParseError,
            >(app@));
        }
        Result::Ok(app)
    }
}

/// The combined ranking value of a raw fuzzy score and a launch count:
/// the raw score alone while the entry was never launched, the launch
/// count alone while the raw score is no signal, else their product.
pub open spec fn corrected_score_spec(score: int, history: nat) -> int {
    if history < 1 {
        score
    } else if score < 1 {
        history as int
    } else {
        score * history
    }
}

impl App {
    /// Returns a corrected score, mix of history and matching score.
    pub fn corrected_score(&self) -> (r: i64)
        requires
            i64::MIN <= corrected_score_spec(self@.score, self@.history) <= i64::MAX,
        ensures
            r as int == corrected_score_spec(self@.score, self@.history),
    {
        if self.history < 1 {
            self.score
        } else if self.score < 1 {
            self.history as i64
        } else {
            proof {
                assert(self@.score * self@.history >= self@.history) by (nonlinear_arith)
                    requires
                        self@.score >= 1,
                        self@.history >= 1,
                ;
            }
            self.score * (self.history as i64)
        }
    }

    /// The corrected score computed without overflow, for ranking.
    pub fn corrected_score_wide(&self) -> (r: i128)
        ensures
            r as int == corrected_score_spec(self@.score, self@.history),
    {
        if self.history < 1 {
            self.score as i128
        } else if self.score < 1 {
            self.history as i128
        } else {
            proof {
                assert(self@.score * self@.history <= 0x7fffffffffffffffi64 as int
                    * 0xffffffffffffffffu64 as int) by (nonlinear_arith)
                    requires
                        1 <= self@.score <= 0x7fffffffffffffffi64 as int,
                        1 <= self@.history <= 0xffffffffffffffffu64 as int,
                ;
                assert(self@.score * self@.history >= 1) by (nonlinear_arith)
                    requires
                        self@.score >= 1,
                        self@.history >= 1,
                ;
            }
            (self.score as i128) * (self.history as i128)
        }
    }
}

/// The entries one descriptor text yields: one per declared action whose
/// section parses, in declaration order, then the base entry; none when
/// the base itself fails to parse.
pub open spec fn discovered_spec(contents: Seq<char>) -> Seq<AppView> {
    match parse_spec(contents, Option::None) {
        Result::Err(_) => Seq::empty(),
        Result::Ok(base) => match base.actions {
            Option::None => seq![base],
            Option::Some(acts) => action_entries(contents, base.name, acts) + seq![base],
        },
    }
}

/// The action entries for the declared identifiers `acts`, keeping those
/// whose section parses.
pub open spec fn action_entries(
    contents: Seq<char>,
    owner: Seq<char>,
    acts: Seq<Seq<char>>,
) -> Seq<AppView>
    decreases acts.len(),
{
    if acts.len() == 0 {
        Seq::empty()
    } else {
        let rest = action_entries(contents, owner, acts.drop_last());
        match parse_spec(contents, Option::Some((acts.last(), owner))) {
            Result::Ok(a) => rest + seq![a],
            Result::Err(_) => rest,
        }
    }
}

/// Parses one descriptor text into all its entries: each declared action
/// that parses, then the base entry. A descriptor that is hidden, has no
/// command, or cannot be parsed yields nothing.
pub fn discover_entries(contents: &str) -> (r: Vec<App>)
    ensures
        r@.map_values(|a: App| a@) == discovered_spec(contents@),
{
    let base = match App::parse(contents, Option::None) {
        Result::Ok(app) => app,
        Result::Err(_) => {
            let r: Vec<App> = Vec::new();
            proof {
                assert(r@.map_values(|a: App| a@) =~= discovered_spec(contents@));
            }
            return r;
        },
    };
    let mut out: Vec<App> = Vec::new();
    let ghost ownerv = base@.name;
    match &base.actions {
        Option::Some(acts) => {
            let ghost actsv = acts@.map_values(|l: String| l@);
            let mut j: usize = 0;
            proof {
                assert(actsv.take(0) =~= Seq::<Seq<char>>::empty());
            }
            while j < acts.len()
                invariant
                    0 <= j <= acts.len(),
                    actsv == acts@.map_values(|l: String| l@),
                    ownerv == base@.name,
                    out@.map_values(|a: App| a@) == action_entries(contents@, ownerv, actsv.take(j as int)),
                decreases acts.len() - j,
            {
                let ghost prev = out@;
                let ac = Action::default().name(acts[j].as_str()).from(base.name.as_str());
                proof {
                    assert(actsv.take(j + 1).drop_last() =~= actsv.take(j as int));
                    assert(actsv.take(j + 1).last() == actsv[j as int]);
                }
                match App::parse(contents, Option::Some(&ac)) {
                    Result::Ok(a) => {
                        out.push(a);
                        proof {
                            assert(out@.map_values(|a: App| a@) =~= prev.map_values(|a: App| a@)
                                + seq![out@.last()@]);
                        }
                    },
                    Result::Err(_) => {
                        proof {
                            assert(out@.map_values(|a: App| a@) =~= action_entries(
                                contents@,
                                ownerv,
                                actsv.take(j + 1),
                            ));
                        }
                    },
                }
                j = j + 1;
            }
            proof {
                assert(actsv.take(acts@.len() as int) =~= actsv);
            }
        },
        Option::None => {},
    }
    let ghost entries_before_base = out@;
    out.push(base);
    proof {
        assert(out@.map_values(|a: App| a@) =~= entries_before_base.map_values(|a: App| a@)
            + seq![out@.last()@]);
        assert(out@.map_values(|a: App| a@) =~= discovered_spec(contents@));
    }
    out
}

/// Every entry the parser returns meets the data model's invariants:
/// its name and its command are never empty.
pub proof fn lemma_parsed_entry_nonempty(
    contents: Seq<char>,
    action: Option<(Seq<char>, Seq<char>)>,
)
    ensures
        parse_spec(contents, action) matches Result::Ok(v) ==> v.name.len() > 0
            && v.command.len() > 0,
{
    reveal_strlit("Unknown");
}

/// Characters of a prefix appear in the prefixed sequence.
proof fn lemma_prefix_char(p: Seq<char>, s: Seq<char>, i: int)
    requires
        p.is_prefix_of(s),
        0 <= i < p.len(),
    ensures
        s[i] == p[i],
{
    assert(s.take(p.len() as int)[i] == s[i]);
}

/// A line that sets the hidden flag when read inside the target section.
pub open spec fn is_hiding_line(line: Seq<char>) -> bool {
    "NoDisplay="@.is_prefix_of(line) && is_true_ci(strip_all(line, "NoDisplay="@))
}

/// Once the scan has turned hidden it stays hidden to the end.
proof fn lemma_scan_hidden_sticky(
    ls: Seq<Seq<char>>,
    pattern: Seq<char>,
    from: Option<Seq<char>>,
    t: int,
)
    requires
        0 <= t <= ls.len(),
        scan(ls.take(t), pattern, from).hidden,
    ensures
        scan(ls, pattern, from).hidden,
    decreases ls.len(),
{
    if t == ls.len() {
        assert(ls.take(t) =~= ls);
    } else {
        assert(ls.drop_last().take(t) =~= ls.take(t));
        lemma_scan_hidden_sticky(ls.drop_last(), pattern, from, t);
    }
}

/// Over lines in which every `Exec=` key stands where the scan is not
/// searching, and no hiding line occurs, the scan never finds a command
/// and never hides.
proof fn lemma_scan_no_exec(ls: Seq<Seq<char>>, pattern: Seq<char>, from: Option<Seq<char>>)
    requires
        "[Desktop"@.is_prefix_of(pattern),
        forall|i: int|
            0 <= i < ls.len() && "Exec="@.is_prefix_of(#[trigger] ls[i]) ==> !scan(
                ls.take(i),
                pattern,
                from,
            ).search,
        forall|i: int| 0 <= i < ls.len() ==> !is_hiding_line(#[trigger] ls[i]),
    ensures
        scan(ls, pattern, from).cmd is None,
        !scan(ls, pattern, from).hidden,
    decreases ls.len(),
{
    reveal_strlit("Exec=");
    reveal_strlit("[Desktop");
    if ls.len() > 0 {
        let prev = ls.drop_last();
        assert forall|i: int|
            0 <= i < prev.len() && "Exec="@.is_prefix_of(#[trigger] prev[i]) implies !scan(
            prev.take(i),
            pattern,
            from,
        ).search by {
            assert(prev[i] == ls[i]);
            assert(prev.take(i) =~= ls.take(i));
        }
        assert(forall|i: int| 0 <= i < prev.len() ==> !is_hiding_line(#[trigger] prev[i]));
        lemma_scan_no_exec(prev, pattern, from);
        let st = scan(prev, pattern, from);
        let line = ls.last();
        assert(!is_hiding_line(line));
        if "Exec="@.is_prefix_of(line) {
            assert(prev =~= ls.take(ls.len() - 1));
            assert(!st.search);
            // an `Exec=` line opens no header and is not the pattern
            lemma_prefix_char("Exec="@, line, 0);
            if "[Desktop"@.is_prefix_of(line) {
                lemma_prefix_char("[Desktop"@, line, 0);
                assert(false);
            }
            if line == pattern {
                lemma_prefix_char("[Desktop"@, pattern, 0);
                assert(false);
            }
        }
    }
}

/// A descriptor text in which every `Exec=` line stands outside the
/// target section — when the scan reaches it, it is not inside
/// `[Desktop Entry]` — and none of whose lines would hide the entry
/// parses to `NoCommand`, whatever other keys the text holds.
pub proof fn lemma_no_exec_line_gives_no_command(contents: Seq<char>)
    requires
        forall|i: int|
            0 <= i < spec_lines(contents).len() && "Exec="@.is_prefix_of(
                #[trigger] spec_lines(contents)[i],
            ) ==> !scan(spec_lines(contents).take(i), "[Desktop Entry]"@, Option::None).search,
        forall|i: int|
            0 <= i < spec_lines(contents).len() ==> !is_hiding_line(
                #[trigger] spec_lines(contents)[i],
            ),
    ensures
        parse_spec(contents, Option::None) == Result::Err::<AppView, ParseError>(
            ParseError::NoCommand,
        ),
{
    reveal_strlit("[Desktop");
    reveal_strlit("[Desktop Entry]");
    assert("[Desktop"@.is_prefix_of("[Desktop Entry]"@)) by {
        assert("[Desktop"@ =~= "[Desktop Entry]"@.take(8));
    }
    lemma_scan_no_exec(spec_lines(contents), "[Desktop Entry]"@, Option::None);
}

/// While the scan stands inside the section (or is already hidden), lines
/// that open no new `[Desktop` header keep it there.
proof fn lemma_scan_stays_inside(
    ls: Seq<Seq<char>>,
    pattern: Seq<char>,
    from: Option<Seq<char>>,
    j: int,
    m: int,
)
    requires
        0 <= j < m <= ls.len(),
        scan(ls.take(j + 1), pattern, from).search || scan(ls.take(j + 1), pattern, from).hidden,
        forall|t: int| j < t < m ==> !"[Desktop"@.is_prefix_of(#[trigger] ls[t]),
    ensures
        scan(ls.take(m), pattern, from).search || scan(ls.take(m), pattern, from).hidden,
    decreases m,
{
    if m == j + 1 {
    } else {
        lemma_scan_stays_inside(ls, pattern, from, j, m - 1);
        assert(ls.take(m).drop_last() =~= ls.take(m - 1));
        assert(ls.take(m).last() == ls[m - 1]);
        let st = scan(ls.take(m - 1), pattern, from);
        assert(!"[Desktop"@.is_prefix_of(ls[m - 1]));
        assert(scan(ls.take(m), pattern, from) == scan_step(st, ls[m - 1], pattern, from));
    }
}

/// A descriptor whose target section says `NoDisplay=true` before any
/// further `[Desktop` header parses to `Hidden`, whatever other keys the
/// text holds: line `j` opens the `[Desktop Entry]` section, line `k`
/// hides the entry, and no header stands between them.
pub proof fn lemma_no_display_hides(contents: Seq<char>, j: int, k: int)
    requires
        ({
            let ls = spec_lines(contents);
            &&& 0 <= j < k < ls.len()
            &&& ls[j] == "[Desktop Entry]"@
            &&& forall|t: int| j < t < k ==> !"[Desktop"@.is_prefix_of(#[trigger] ls[t])
            &&& is_hiding_line(ls[k])
        }),
    ensures
        parse_spec(contents, Option::None) == Result::Err::<AppView, ParseError>(
            ParseError::Hidden,
        ),
{
    let ls = spec_lines(contents);
    let pattern = "[Desktop Entry]"@;
    let from = Option::None::<Seq<char>>;
    reveal_strlit("[Desktop");
    reveal_strlit("[Desktop Entry]");
    reveal_strlit("Name=");
    reveal_strlit("Comment=");
    reveal_strlit("Terminal=");
    reveal_strlit("Exec=");
    reveal_strlit("NoDisplay=");
    // after line j the scan stands inside the section (or was hidden before)
    assert(ls.take(j + 1).drop_last() =~= ls.take(j));
    assert(ls.take(j + 1).last() == ls[j]);
    let stj = scan(ls.take(j), pattern, from);
    assert(scan(ls.take(j + 1), pattern, from) == scan_step(stj, ls[j], pattern, from));
    assert(scan(ls.take(j + 1), pattern, from).search || scan(ls.take(j + 1), pattern, from).hidden);
    // the flag survives to line k
    lemma_scan_stays_inside(ls, pattern, from, j, k);
    // line k hides the entry
    let stk = scan(ls.take(k), pattern, from);
    assert(ls.take(k + 1).drop_last() =~= ls.take(k));
    assert(ls.take(k + 1).last() == ls[k]);
    assert(scan(ls.take(k + 1), pattern, from) == scan_step(stk, ls[k], pattern, from));
    assert("NoDisplay="@.is_prefix_of(ls[k]));
    lemma_prefix_char("NoDisplay="@, ls[k], 0);
    lemma_prefix_char("NoDisplay="@, ls[k], 1);
    assert(ls[k][0] == 'N' && ls[k][1] == 'o');
    if "[Desktop"@.is_prefix_of(ls[k]) {
        lemma_prefix_char("[Desktop"@, ls[k], 0);
        assert(false);
    }
    if ls[k] == pattern {
        assert(ls[k][0] == '[');
        assert(false);
    }
    if "Name="@.is_prefix_of(ls[k]) {
        lemma_prefix_char("Name="@, ls[k], 1);
        assert(false);
    }
    if "Comment="@.is_prefix_of(ls[k]) {
        lemma_prefix_char("Comment="@, ls[k], 0);
        assert(false);
    }
    if "Terminal="@.is_prefix_of(ls[k]) {
        lemma_prefix_char("Terminal="@, ls[k], 0);
        assert(false);
    }
    if "Exec="@.is_prefix_of(ls[k]) {
        lemma_prefix_char("Exec="@, ls[k], 0);
        assert(false);
    }
    assert(scan(ls.take(k + 1), pattern, from).hidden);
    lemma_scan_hidden_sticky(ls, pattern, from, k + 1);
}

} // verus!
