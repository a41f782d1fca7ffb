//! The programs that are started with the session: where they are looked for, which of them are
//! started, and with what arguments.

use vstd::prelude::*;
use vstd::utf8::encode_utf8;

use crate::env::copy_env;
use crate::process::Launch;
use crate::text::{
    join, joined, law_join_then_split, law_pieces_hold_no_separator,
    law_pieces_of_two, lemma_pieces_grow, lemma_pieces_nonempty, lemma_pieces_of_one, pieces, same,
    split, split_bytes, starts_with,
};

verus! {

/// The path of the directory `autostart` inside the directory `dir`.
pub open spec fn autostart_in(dir: Seq<u8>) -> Seq<u8> {
    if dir.len() == 0 || dir.last() == 47u8 {
        dir + encode_utf8("autostart"@)
    } else {
        dir.push(47u8) + encode_utf8("autostart"@)
    }
}

/// The directories to look through, in order: that of the user first, then those of the system,
/// which `xdg_config_dirs` lists with colons between them.
pub open spec fn scanned(user_config_dir: Option<Seq<u8>>, xdg_config_dirs: Option<Seq<u8>>) -> Seq<
    Seq<u8>,
> {
    let users = match user_config_dir {
        Some(dir) => seq![autostart_in(dir)],
        None => Seq::empty(),
    };
    users + match xdg_config_dirs {
        Some(dirs) => pieces(dirs, 58u8).map_values(|dir: Seq<u8>| autostart_in(dir)),
        None => seq![autostart_in(encode_utf8("/etc/xdg/"@))],
    }
}

fn join_autostart(dir: &[u8]) -> (r: Vec<u8>)
    ensures
        r.deep_view() == autostart_in(dir@),
{
    let mut path: Vec<u8> = Vec::new();
    path.extend_from_slice(dir);
    assert(path@ =~= dir@);
    if dir.len() > 0 && dir[dir.len() - 1] != 47u8 {
        path.push(47u8);
    }
    let mut name: Vec<u8> = "autostart".as_bytes_vec();
    path.append(&mut name);
    assert(path.deep_view() =~= autostart_in(dir@));
    path
}

/// The directories to look through for programs to start. Paths are bytes, as the file system has
/// them; `xdg_config_dirs` is the list of the system's configuration directories, where it is set.
pub fn directories_to_scan(
    user_config_dir: Option<Vec<u8>>,
    xdg_config_dirs: Option<Vec<u8>>,
) -> (r: Vec<Vec<u8>>)
    ensures
        r.deep_view() == scanned(user_config_dir.deep_view(), xdg_config_dirs.deep_view()),
{
    let mut out: Vec<Vec<u8>> = Vec::new();
    if let Some(dir) = &user_config_dir {
        assert(dir.deep_view() =~= dir@);
        out.push(join_autostart(dir.as_slice()));
    }
    let ghost users = out.deep_view();
    assert(users =~= match user_config_dir.deep_view() {
        Some(dir) => seq![autostart_in(dir)],
        None => Seq::empty(),
    });
    match &xdg_config_dirs {
        Some(dirs) => {
            assert(dirs.deep_view() =~= dirs@);
            let list = split_bytes(dirs.as_slice(), 58u8);
            let ghost all = list.deep_view();
            let ghost place = |dir: Seq<u8>| autostart_in(dir);
            let mut i: usize = 0;
            while i < list.len()
                invariant
                    i <= list.len(),
                    all == list.deep_view(),
                    place == (|dir: Seq<u8>| autostart_in(dir)),
                    out.deep_view() =~= users + all.take(i as int).map_values(place),
                decreases list.len() - i,
            {
                let ghost before = out.deep_view();
                assert(all[i as int] =~= list@[i as int]@);
                out.push(join_autostart(list[i].as_slice()));
                assert(out.deep_view() =~= before.push(autostart_in(all[i as int])));
                i = i + 1;
            }
            assert(all.take(list.len() as int) =~= all);
        },
        None => {
            let dir: Vec<u8> = "/etc/xdg/".as_bytes_vec();
            out.push(join_autostart(dir.as_slice()));
            assert(out.deep_view() =~= users.push(autostart_in(encode_utf8("/etc/xdg/"@))));
        },
    }
    out
}

/// The user's own directory is looked through before every other.
pub proof fn law_user_directory_comes_first(
    user_config_dir: Seq<u8>,
    xdg_config_dirs: Option<Seq<u8>>,
)
    ensures
        scanned(Some(user_config_dir), xdg_config_dirs)[0] == autostart_in(user_config_dir),
        scanned(Some(user_config_dir), xdg_config_dirs).skip(1) == scanned(None, xdg_config_dirs),
{
    assert(scanned(Some(user_config_dir), xdg_config_dirs).skip(1) =~= scanned(
        None,
        xdg_config_dirs,
    ));
}

/// What a desktop entry says about starting its program.
#[derive(Debug)]
pub struct AutostartEntry {
    pub appid: String,
    pub only_show_in: Option<Vec<String>>,
    pub not_show_in: Option<Vec<String>>,
    pub command: Option<String>,
}

/// A desktop entry as values.
pub struct EntryView {
    pub appid: Seq<char>,
    pub only_show_in: Option<Seq<Seq<char>>>,
    pub not_show_in: Option<Seq<Seq<char>>>,
    pub command: Option<Seq<char>>,
}

impl View for AutostartEntry {
    type V = EntryView;

    open spec fn view(&self) -> EntryView {
        EntryView {
            appid: self.appid@,
            only_show_in: self.only_show_in.deep_view(),
            not_show_in: self.not_show_in.deep_view(),
            command: self.command.deep_view(),
        }
    }
}

/// Whether the entry's program belongs to this desktop.
pub open spec fn belongs(entry: EntryView) -> bool {
    &&& entry.only_show_in matches Some(list) ==> list.contains("COSMIC"@)
    &&& entry.not_show_in matches Some(list) ==> !list.contains("COSMIC"@)
}

/// The words of a command line behind the program's name that are no placeholders.
pub open spec fn plain_words(command: Seq<char>) -> Seq<Seq<char>> {
    pieces(command, ' ').drop_first().filter(|w: Seq<char>| !"%"@.is_prefix_of(w))
}

/// The program's name on a command line: all up to the first space.
pub open spec fn program_name(command: Seq<char>) -> Seq<char> {
    pieces(command, ' ')[0]
}

/// The arguments on a command line, without placeholders, as one text.
pub open spec fn argument_text(command: Seq<char>) -> Seq<char> {
    joined(plain_words(command), " "@)
}

/// No placeholder is handed to a program, and no other word of its command line is lost.
pub proof fn law_placeholders_are_dropped(command: Seq<char>)
    ensures
        forall|i: int|
            0 <= i < plain_words(command).len() ==> !"%"@.is_prefix_of(
                #[trigger] plain_words(command)[i],
            ),
        forall|i: int|
            1 <= i < pieces(command, ' ').len() && !"%"@.is_prefix_of(pieces(command, ' ')[i])
                ==> plain_words(command).contains(#[trigger] pieces(command, ' ')[i]),
{
    broadcast use vstd::seq_lib::group_filter_ensures;

    let words = pieces(command, ' ').drop_first();
    let plain = |w: Seq<char>| !"%"@.is_prefix_of(w);
    assert forall|i: int|
        1 <= i < pieces(command, ' ').len() && !"%"@.is_prefix_of(
            pieces(command, ' ')[i],
        ) implies plain_words(command).contains(#[trigger] pieces(command, ' ')[i]) by {
        assert(words[i - 1] == pieces(command, ' ')[i]);
        assert(plain(words[i - 1]));
    }
}

/// The name and the arguments on a command line.
pub fn command_parts(command: &str) -> (r: (String, String))
    ensures
        r.0@ == program_name(command@),
        r.1@ == argument_text(command@),
{
    let words = split(command, ' ');
    let ghost all = words.deep_view();
    let ghost plain = |w: Seq<char>| !"%"@.is_prefix_of(w);
    let mut kept: Vec<String> = Vec::new();
    let mut i: usize = 1;
    proof {
        lemma_pieces_nonempty(command@, ' ');
        reveal(Seq::filter);
    }
    assert(kept.deep_view() =~= all.drop_first().take(0).filter(plain));
    while i < words.len()
        invariant
            1 <= i <= words.len(),
            all == words.deep_view(),
            plain == (|w: Seq<char>| !"%"@.is_prefix_of(w)),
            kept.deep_view() == all.drop_first().take(i - 1).filter(plain),
        decreases words.len() - i,
    {
        let ghost before = kept.deep_view();
        proof {
            reveal(Seq::filter);
            assert(all.drop_first().take(i as int).drop_last() =~= all.drop_first().take(i - 1));
            assert(all.drop_first().take(i as int).last() == all[i as int]);
        }
        if !starts_with(words[i].as_str(), "%") {
            kept.push(words[i].clone());
            assert(kept.deep_view() =~= before.push(all[i as int]));
        }
        i = i + 1;
    }
    assert(all.drop_first().take(words.len() - 1) =~= all.drop_first());
    (words[0].clone(), join(kept.as_slice(), " "))
}

/// The error of `shell_words::split`.
#[verifier::external_type_specification]
#[verifier::external_body]
pub struct ExParseError(shell_words::ParseError);

/// The words that `shell_words::split` finds in a text, `None` where a quote is not closed.
pub uninterp spec fn shell_split(s: Seq<char>) -> Option<Seq<Seq<char>>>;

/// Whether no character of a text has a meaning of its own to the shell's quoting rules, nor
/// stands between words other than the space.
pub open spec fn ordinary(s: Seq<char>) -> bool {
    forall|i: int|
        0 <= i < s.len() ==> !("\"\\'#\t\n"@.contains(#[trigger] s[i]))
}

/// The words that spaces separate.
pub open spec fn spaced_words(s: Seq<char>) -> Seq<Seq<char>> {
    pieces(s, ' ').filter(|w: Seq<char>| w.len() > 0)
}

/// `shell_words::split`: the words of a text by the quoting rules of the shell. Claimed is that
/// the words, or the failure, depend on the text alone, and that a text without quotes,
/// backslashes, comment signs, tabs and line ends gives the words between its spaces. What the
/// rules make of any other text is not stated.
#[verifier::external_body]
fn split_words(s: &str) -> (r: Result<Vec<String>, shell_words::ParseError>)
    ensures
        r is Ok <==> shell_split(s@) is Some,
        r is Ok ==> shell_split(s@) == Some(r->Ok_0.deep_view()),
        ordinary(s@) ==> r is Ok && r->Ok_0.deep_view() == spaced_words(s@),
{
    shell_words::split(s)
}

proof fn lemma_pieces_ordinary(s: Seq<char>, i: int)
    requires
        ordinary(s),
        0 <= i < pieces(s, ' ').len(),
    ensures
        ordinary(pieces(s, ' ')[i]),
    decreases s.len(),
{
    if s.len() > 0 {
        let before = pieces(s.drop_last(), ' ');
        lemma_pieces_nonempty(s.drop_last(), ' ');
        assert forall|k: int| 0 <= k < s.drop_last().len() implies !("\"\\'#\t\n"@.contains(
            #[trigger] s.drop_last()[k],
        )) by {
            assert(s.drop_last()[k] == s[k]);
        }
        if i < before.len() {
            lemma_pieces_ordinary(s.drop_last(), i);
            if s.last() != ' ' && i == before.len() - 1 {
                let grown = before.last().push(s.last());
                assert forall|k: int| 0 <= k < grown.len() implies !("\"\\'#\t\n"@.contains(
                    #[trigger] grown[k],
                )) by {
                    if k < before.last().len() {
                        assert(grown[k] == before.last()[k]);
                    } else {
                        assert(grown[k] == s[s.len() - 1]);
                    }
                }
            }
        }
    }
}

proof fn lemma_joined_ordinary(list: Seq<Seq<char>>)
    requires
        forall|i: int| 0 <= i < list.len() ==> ordinary(#[trigger] list[i]),
    ensures
        ordinary(joined(list, " "@)),
    decreases list.len(),
{
    reveal_strlit(" ");
    reveal_strlit("\"\\'#\t\n");
    if list.len() > 1 {
        let front = list.drop_last();
        lemma_joined_ordinary(front);
        let a = joined(front, " "@);
        let s = joined(list, " "@);
        assert forall|k: int| 0 <= k < s.len() implies !("\"\\'#\t\n"@.contains(
            #[trigger] s[k],
        )) by {
            if k < a.len() {
                assert(s[k] == a[k]);
            } else if k == a.len() {
                assert(s[k] == ' ');
            } else {
                assert(s[k] == list.last()[k - a.len() - 1]);
            }
        }
    }
}

proof fn lemma_ordinary_arguments(command: Seq<char>)
    requires
        ordinary(command),
    ensures
        ordinary(argument_text(command)),
        spaced_words(argument_text(command)) == plain_words(command).filter(
            |w: Seq<char>| w.len() > 0,
        ),
{
    let words = pieces(command, ' ').drop_first();
    let plain = |w: Seq<char>| !"%"@.is_prefix_of(w);
    let nonempty = |w: Seq<char>| w.len() > 0;
    let kept = plain_words(command);
    assert forall|i: int| 0 <= i < kept.len() implies ordinary(#[trigger] kept[i])
        && !kept[i].contains(' ') by {
        assert(kept.contains(kept[i]));
        words.lemma_filter_contains_rev(plain, kept[i]);
        let j = words.index_of(kept[i]);
        assert(pieces(command, ' ')[j + 1] == kept[i]);
        lemma_pieces_ordinary(command, j + 1);
        law_pieces_hold_no_separator(command, ' ', j + 1);
    }
    lemma_joined_ordinary(kept);
    reveal_strlit(" ");
    assert(" "@ =~= seq![' ']);
    if kept.len() > 0 {
        law_join_then_split(kept, ' ');
    } else {
        reveal_with_fuel(Seq::filter, 3);
        assert(argument_text(command) =~= Seq::<char>::empty());
        assert(pieces(argument_text(command), ' ') =~= seq![Seq::<char>::empty()]);
        assert(pieces(argument_text(command), ' ').drop_last() =~= Seq::<Seq<char>>::empty());
        assert(spaced_words(argument_text(command)) =~= Seq::<Seq<char>>::empty());
        assert(kept.filter(nonempty) =~= Seq::<Seq<char>>::empty());
    }
}

/// What to do about an entry.
#[derive(Debug)]
pub enum Decision {
    /// Nothing.
    Skip,
    /// Start this program with these arguments.
    Launch { program: String, args: Vec<String> },
    /// Log that the arguments could not be parsed.
    BadArguments,
}

/// A decision as values.
pub enum DecisionView {
    Skip,
    Launch { program: Seq<char>, args: Seq<Seq<char>> },
    BadArguments,
}

impl View for Decision {
    type V = DecisionView;

    open spec fn view(&self) -> DecisionView {
        match self {
            Decision::Skip => DecisionView::Skip,
            Decision::Launch { program, args } => DecisionView::Launch {
                program: program@,
                args: args.deep_view(),
            },
            Decision::BadArguments => DecisionView::BadArguments,
        }
    }
}

/// The decision on a program whose arguments split into `args`.
pub open spec fn decided(program: Seq<char>, args: Option<Seq<Seq<char>>>) -> DecisionView {
    match args {
        Some(list) => DecisionView::Launch { program, args: list },
        None => DecisionView::BadArguments,
    }
}

/// The decision on a program whose arguments split into `args`, or do not split.
pub fn decide(program: String, args: Option<Vec<String>>) -> (r: Decision)
    ensures
        r@ == decided(program@, args.deep_view()),
{
    match args {
        Some(args) => Decision::Launch { program, args },
        None => Decision::BadArguments,
    }
}

fn list_contains(list: &[String], x: &str) -> (r: bool)
    ensures
        r == list.deep_view().contains(x@),
{
    let ghost all = list.deep_view();
    let mut i: usize = 0;
    while i < list.len()
        invariant
            i <= list.len(),
            all == list.deep_view(),
            forall|j: int| 0 <= j < i ==> all[j] != x@,
        decreases list.len() - i,
    {
        assert(all[i as int] == list@[i as int]@);
        if same(list[i].as_str(), x) {
            return true;
        }
        i = i + 1;
    }
    false
}

/// Whether the entry is to be started at all, where `started` lists the programs that were.
pub open spec fn eligible(started: Seq<Seq<char>>, entry: EntryView) -> bool {
    !started.contains(entry.appid) && belongs(entry)
}

/// What to do about an entry, where `started` lists the programs that were started: a program is
/// started once, and only where it belongs to this desktop and has a command line.
pub open spec fn decision(started: Seq<Seq<char>>, entry: EntryView) -> DecisionView {
    match entry.command {
        Some(command) => if eligible(started, entry) {
            decided(program_name(command), shell_split(argument_text(command)))
        } else {
            DecisionView::Skip
        },
        None => DecisionView::Skip,
    }
}

/// The programs that are listed as started after an attempt to start one.
pub open spec fn after_attempt(started: Seq<Seq<char>>, appid: Seq<char>, success: bool) -> Seq<
    Seq<char>,
> {
    if success && !started.contains(appid) {
        started.push(appid)
    } else {
        started
    }
}

/// The programs that were started.
pub struct Autostart {
    started: Vec<String>,
}

impl Autostart {
    /// The ids of the programs that were started, in order.
    pub closed spec fn started(self) -> Seq<Seq<char>> {
        self.started.deep_view()
    }

    /// No program is listed twice.
    pub open spec fn wf(self) -> bool {
        self.started().no_duplicates()
    }

    /// Nothing was started yet.
    pub fn new() -> (r: Self)
        ensures
            r.wf(),
            r.started() == Seq::<Seq<char>>::empty(),
    {
        let r = Autostart { started: Vec::new() };
        assert(r.started() =~= Seq::<Seq<char>>::empty());
        r
    }

    /// What to do about an entry: a program is started once, and only where it belongs to this
    /// desktop and has a command line.
    pub fn consider(&self, entry: &AutostartEntry) -> (r: Decision)
        ensures
            r@ == decision(self.started(), entry@),
            entry@.command matches Some(command) ==> eligible(self.started(), entry@)
                && ordinary(command) ==> r@ == decided(
                program_name(command),
                Some(plain_words(command).filter(|w: Seq<char>| w.len() > 0)),
            ),
    {
        if list_contains(self.started.as_slice(), entry.appid.as_str()) {
            return Decision::Skip;
        }
        if let Some(only) = &entry.only_show_in {
            if !list_contains(only.as_slice(), "COSMIC") {
                return Decision::Skip;
            }
        }
        if let Some(not) = &entry.not_show_in {
            if list_contains(not.as_slice(), "COSMIC") {
                return Decision::Skip;
            }
        }
        match &entry.command {
            Some(command) => {
                let (program, text) = command_parts(command.as_str());
                proof {
                    if ordinary(command@) {
                        lemma_ordinary_arguments(command@);
                    }
                }
                let args: Option<Vec<String>> = match split_words(text.as_str()) {
                    Ok(list) => Some(list),
                    Err(_) => None,
                };
                decide(program, args)
            },
            None => Decision::Skip,
        }
    }

    /// An attempt was made to start a program; only one that succeeded counts.
    pub fn attempted(&mut self, appid: String, success: bool)
        requires
            old(self).wf(),
        ensures
            final(self).wf(),
            final(self).started() == after_attempt(old(self).started(), appid@, success),
    {
        if success && !list_contains(self.started.as_slice(), appid.as_str()) {
            let ghost before = self.started();
            self.started.push(appid);
            assert(self.started() =~= before.push(appid@));
        }
    }

    /// How many programs were started.
    pub fn count(&self) -> (r: usize)
        ensures
            r == self.started().len(),
    {
        self.started.len()
    }
}

/// How a program is launched that is started with the session: with the session's environment.
pub fn program_launch(program: String, args: Vec<String>, env_vars: &[(String, String)]) -> (r:
    Launch)
    ensures
        r.executable == program,
        r.args == args,
        r.env_vars.deep_view() == env_vars.deep_view(),
{
    Launch { executable: program, args, env_vars: copy_env(env_vars) }
}

/// An entry, with whether its program could be started where that is tried.
pub type Trial = (EntryView, bool);

/// The programs that are listed as started after entries, one after the other, where `started` were
/// before them.
pub open spec fn started_after(started: Seq<Seq<char>>, trials: Seq<Trial>) -> Seq<Seq<char>>
    decreases trials.len(),
{
    if trials.len() == 0 {
        started
    } else {
        let before = started_after(started, trials.drop_last());
        let (entry, success) = trials.last();
        if decision(before, entry) is Launch {
            after_attempt(before, entry.appid, success)
        } else {
            before
        }
    }
}

/// Whether the program of the entry with this index is tried.
pub open spec fn is_tried(started: Seq<Seq<char>>, trials: Seq<Trial>, i: int) -> bool {
    decision(started_after(started, trials.take(i)), trials[i].0) is Launch
}

proof fn lemma_listed_stays(started: Seq<Seq<char>>, trials: Seq<Trial>, i: int, appid: Seq<char>)
    requires
        0 <= i <= trials.len(),
        started_after(started, trials.take(i)).contains(appid),
    ensures
        started_after(started, trials).contains(appid),
    decreases trials.len(),
{
    if i < trials.len() {
        let front = trials.drop_last();
        assert(front.take(i) =~= trials.take(i));
        lemma_listed_stays(started, front, i, appid);
        let before = started_after(started, front);
        let k = before.index_of(appid);
        assert(started_after(started, trials)[k] == appid);
    } else {
        assert(trials.take(i) =~= trials);
    }
}

/// A program is started once: whatever the entries are, once a program was started, no later entry
/// with its id is tried.
pub proof fn law_program_starts_once(
    started: Seq<Seq<char>>,
    trials: Seq<Trial>,
    i: int,
    j: int,
)
    requires
        0 <= i < j < trials.len(),
        is_tried(started, trials, i),
        trials[i].1,
        trials[j].0.appid == trials[i].0.appid,
    ensures
        decision(started_after(started, trials.take(j)), trials[j].0) == DecisionView::Skip,
{
    let appid = trials[i].0.appid;
    let upto = trials.take(i + 1);
    assert(upto.drop_last() =~= trials.take(i));
    let before = started_after(started, trials.take(i));
    assert(started_after(started, upto) == before.push(appid));
    assert(before.push(appid)[before.len() as int] == appid);
    assert(trials.take(j).take(i + 1) =~= upto);
    lemma_listed_stays(started, trials.take(j), i + 1, appid);
}

/// Whether an entry with this id is tried with success, where nothing was started before.
pub open spec fn is_started(trials: Seq<Trial>, appid: Seq<char>) -> bool {
    exists|i: int|
        0 <= i < trials.len() && #[trigger] is_tried(Seq::empty(), trials, i) && trials[i].1
            && trials[i].0.appid == appid
}

/// The programs that count as started are those of the entries that were tried with success, each
/// listed once.
pub proof fn law_started_programs_were_tried(trials: Seq<Trial>)
    ensures
        started_after(Seq::empty(), trials).no_duplicates(),
        forall|appid: Seq<char>|
            started_after(Seq::empty(), trials).contains(appid) <==> #[trigger] is_started(
                trials,
                appid,
            ),
    decreases trials.len(),
{
    let none = Seq::<Seq<char>>::empty();
    if trials.len() > 0 {
        let front = trials.drop_last();
        let n = front.len() as int;
        let before = started_after(none, front);
        let now = started_after(none, trials);
        law_started_programs_were_tried(front);
        assert(trials.take(n) =~= front);
        assert forall|i: int| 0 <= i < n implies is_tried(none, front, i) == is_tried(
            none,
            trials,
            i,
        ) by {
            assert(front.take(i) =~= trials.take(i));
        }
        assert forall|appid: Seq<char>|
            now.contains(appid) <==> #[trigger] is_started(trials, appid) by {
            assert(before.contains(appid) <==> is_started(front, appid));
            if is_started(front, appid) {
                let i = choose|i: int|
                    0 <= i < n && #[trigger] is_tried(none, front, i) && front[i].1
                        && front[i].0.appid == appid;
                assert(is_tried(none, trials, i));
                assert(now[before.index_of(appid)] == appid);
            } else if is_started(trials, appid) {
                let i = choose|i: int|
                    0 <= i < trials.len() && #[trigger] is_tried(none, trials, i) && trials[i].1
                        && trials[i].0.appid == appid;
                if i < n {
                    assert(is_tried(none, front, i));
                }
                assert(now.last() == appid);
                assert(now.contains(now.last()));
            } else if now.contains(appid) {
                let k = now.index_of(appid);
                if k < before.len() {
                    assert(before[k] == appid);
                } else {
                    assert(is_tried(none, trials, n));
                }
            }
        }
    }
}

/// The place for programs inside a directory is the entry `autostart` of that directory: one slash
/// stands before the name, unless the directory has no name of its own to put it behind.
pub proof fn law_programs_are_in_the_directory_autostart(dir: Seq<u8>)
    ensures
        dir.len() > 0 && dir.last() != 47u8 ==> autostart_in(dir) == dir + seq![47u8] + encode_utf8(
            "autostart"@,
        ),
        dir.len() > 0 && dir.last() == 47u8 ==> autostart_in(dir) == dir + encode_utf8(
            "autostart"@,
        ),
        autostart_in(Seq::empty()) == encode_utf8("autostart"@),
{
    assert(dir.push(47u8) =~= dir + seq![47u8]);
    assert(Seq::<u8>::empty() + encode_utf8("autostart"@) =~= encode_utf8("autostart"@));
}

/// Each directory that the list of the system names is looked through, in the order of the list,
/// whose entries stand between colons; the user's own directory, where there is one, comes before
/// them and is looked through once. Without a list there is one directory of the system.
pub proof fn law_listed_directories_are_scanned_in_order(
    user: Seq<u8>,
    dirs: Option<Seq<u8>>,
    a: Seq<u8>,
    b: Seq<u8>,
)
    ensures
        scanned(Some(user), dirs) == seq![autostart_in(user)] + scanned(None, dirs),
        scanned(None, Some(a.push(58u8) + b)) == scanned(None, Some(a)) + scanned(None, Some(b)),
        !a.contains(58u8) ==> scanned(None, Some(a)) == seq![autostart_in(a)],
        scanned(None, None) == seq![autostart_in(encode_utf8("/etc/xdg/"@))],
{
    law_pieces_of_two(a, 58u8, b);
    law_pieces_of_two(b, 58u8, a);
    assert(scanned(Some(user), dirs) =~= seq![autostart_in(user)] + scanned(None, dirs));
    assert(scanned(None, Some(a.push(58u8) + b)) =~= scanned(None, Some(a)) + scanned(
        None,
        Some(b),
    ));
    if !a.contains(58u8) {
        assert(scanned(None, Some(a)) =~= seq![autostart_in(a)]);
    }
    assert(scanned(None, None) =~= seq![autostart_in(encode_utf8("/etc/xdg/"@))]);
}

/// The two lists of an entry exclude it each on its own: `NotShowIn` where it holds this desktop,
/// whatever `OnlyShowIn` is, and `OnlyShowIn` where it lacks this desktop, whatever `NotShowIn` is.
/// So does a program that was started before, and the lack of a command line. Any other entry is
/// not skipped.
pub proof fn law_each_rule_excludes_on_its_own(started: Seq<Seq<char>>, entry: EntryView)
    ensures
        (entry.not_show_in is Some && entry.not_show_in->0.contains("COSMIC"@)) ==> decision(
            started,
            entry,
        ) == DecisionView::Skip,
        (entry.only_show_in is Some && !entry.only_show_in->0.contains("COSMIC"@)) ==> decision(
            started,
            entry,
        ) == DecisionView::Skip,
        started.contains(entry.appid) ==> decision(started, entry) == DecisionView::Skip,
        entry.command is None ==> decision(started, entry) == DecisionView::Skip,
        (entry.not_show_in is None || !entry.not_show_in->0.contains("COSMIC"@)) && (
        entry.only_show_in is None || entry.only_show_in->0.contains("COSMIC"@))
            && !started.contains(entry.appid) && entry.command is Some ==> decision(started, entry)
            != DecisionView::Skip,
{
}

/// An entry that is not skipped is launched with the program that its command line names and the
/// words that its arguments split into, or its arguments are bad where they do not split; nothing
/// else of the entry counts.
pub proof fn law_launch_is_what_the_command_line_says(
    started: Seq<Seq<char>>,
    entry: EntryView,
    command: Seq<char>,
    words: Seq<Seq<char>>,
)
    requires
        entry.command == Some(command),
        decision(started, entry) != DecisionView::Skip,
    ensures
        shell_split(argument_text(command)) == Some(words) ==> decision(started, entry) == (
        DecisionView::Launch { program: program_name(command), args: words }),
        shell_split(argument_text(command)) is None ==> decision(started, entry)
            == DecisionView::BadArguments,
        decided(program_name(command), Some(words)) == (DecisionView::Launch {
            program: program_name(command),
            args: words,
        }),
        decided(program_name(command), None) == DecisionView::BadArguments,
{
}

/// The program's name is all up to the first space of the command line.
pub proof fn law_program_name_ends_at_the_first_space(name: Seq<char>, rest: Seq<char>)
    requires
        !name.contains(' '),
    ensures
        program_name(name) == name,
        program_name(name.push(' ') + rest) == name,
{
    law_pieces_of_two(name, ' ', rest);
    lemma_pieces_of_one(name, ' ');
}

/// A command line that is its program's name has no arguments. Behind a space, each further word is
/// one more argument, as it is written, unless it begins with `%`: then the arguments stay as they
/// are.
pub proof fn law_each_word_is_an_argument_or_a_placeholder(
    name: Seq<char>,
    command: Seq<char>,
    word: Seq<char>,
)
    requires
        !name.contains(' '),
        !word.contains(' '),
    ensures
        plain_words(name) == Seq::<Seq<char>>::empty(),
        word.len() > 0 && word[0] == '%' ==> plain_words(command.push(' ') + word) == plain_words(
            command,
        ),
        word.len() == 0 || word[0] != '%' ==> plain_words(command.push(' ') + word) == plain_words(
            command,
        ).push(word),
{
    reveal_strlit("%");
    reveal(Seq::filter);
    lemma_pieces_of_one(name, ' ');
    lemma_pieces_nonempty(command, ' ');
    lemma_pieces_grow(command, ' ', word);
    assert(pieces(name, ' ').drop_first() =~= Seq::<Seq<char>>::empty());
    let words = pieces(command, ' ').drop_first();
    assert(pieces(command, ' ').push(word).drop_first() =~= words.push(word));
    assert(words.push(word).drop_last() =~= words);
    if "%"@.is_prefix_of(word) {
        assert(word[0] == "%"@[0]);
    } else if word.len() > 0 && word[0] == '%' {
        assert("%"@ =~= word.subrange(0, 1));
    }
}

/// The text of the arguments is the arguments with one space between each two of them.
pub proof fn law_argument_text_holds_the_arguments(command: Seq<char>)
    ensures
        plain_words(command).len() == 0 ==> argument_text(command) == Seq::<char>::empty(),
        plain_words(command).len() > 0 ==> pieces(argument_text(command), ' ') == plain_words(
            command,
        ),
{
    let words = pieces(command, ' ').drop_first();
    let plain = |w: Seq<char>| !"%"@.is_prefix_of(w);
    let kept = plain_words(command);
    reveal_strlit(" ");
    assert(" "@ =~= seq![' ']);
    assert forall|i: int| 0 <= i < kept.len() implies !(#[trigger] kept[i]).contains(' ') by {
        assert(kept.contains(kept[i]));
        words.lemma_filter_contains_rev(plain, kept[i]);
        let j = words.index_of(kept[i]);
        assert(pieces(command, ' ')[j + 1] == kept[i]);
        law_pieces_hold_no_separator(command, ' ', j + 1);
    }
    if kept.len() > 0 {
        law_join_then_split(kept, ' ');
    }
}

/// Spaces separate words, and there is no word without characters.
pub proof fn law_words_stand_between_spaces(a: Seq<char>, b: Seq<char>)
    ensures
        spaced_words(a.push(' ') + b) == spaced_words(a) + spaced_words(b),
        spaced_words(Seq::empty()) == Seq::<Seq<char>>::empty(),
        !a.contains(' ') && a.len() > 0 ==> spaced_words(a) == seq![a],
{
    let nonempty = |w: Seq<char>| w.len() > 0;
    reveal(Seq::filter);
    law_pieces_of_two(a, ' ', b);
    Seq::filter_distributes_over_add(pieces(a, ' '), pieces(b, ' '), nonempty);
    let empty = Seq::<char>::empty();
    assert(pieces(empty, ' ') =~= seq![empty]);
    assert(seq![empty].drop_last() =~= Seq::<Seq<char>>::empty());
    assert(Seq::<Seq<char>>::empty().filter(nonempty) =~= Seq::<Seq<char>>::empty());
    if !a.contains(' ') && a.len() > 0 {
        lemma_pieces_of_one(a, ' ');
        assert(seq![a].drop_last() =~= Seq::<Seq<char>>::empty());
        assert(spaced_words(a) =~= seq![a]);
    }
}

/// A text is ordinary where each of its characters is, and six characters are not.
pub proof fn law_six_characters_are_special(a: Seq<char>, c: char)
    ensures
        ordinary(Seq::empty()),
        ordinary(a.push(c)) <==> ordinary(a) && c != '"' && c != '\\' && c != '\'' && c != '#' && c
            != '\t' && c != '\n',
{
    reveal_strlit("\"\\'#\t\n");
    let special = "\"\\'#\t\n"@;
    assert(special =~= seq!['"', '\\', '\'', '#', '\t', '\n']);
    if special.contains(c) {
        assert(special[special.index_of(c)] == c);
    } else {
        assert(special[0] != c && special[1] != c && special[2] != c && special[3] != c
            && special[4] != c && special[5] != c) by {
            assert forall|i: int| 0 <= i < 6 implies special[i] != c by {
                if special[i] == c {
                    assert(special.contains(c));
                }
            }
        }
    }
    if ordinary(a) && !special.contains(c) {
        assert forall|i: int| 0 <= i < a.push(c).len() implies !(special.contains(
            #[trigger] a.push(c)[i],
        )) by {
            if i < a.len() {
                assert(a.push(c)[i] == a[i]);
            }
        }
    }
    if ordinary(a.push(c)) {
        assert(a.push(c)[a.len() as int] == c);
        assert forall|i: int| 0 <= i < a.len() implies !(special.contains(#[trigger] a[i])) by {
            assert(a.push(c)[i] == a[i]);
        }
    }
}

/// An attempt lists the program where it succeeded, once, and forgets none.
pub proof fn law_only_success_is_listed(started: Seq<Seq<char>>, appid: Seq<char>, id: Seq<char>)
    ensures
        after_attempt(started, appid, false) == started,
        after_attempt(started, appid, true).contains(id) <==> started.contains(id) || id == appid,
        started.contains(appid) ==> after_attempt(started, appid, true) == started,
        !started.contains(appid) ==> after_attempt(started, appid, true).len() == started.len() + 1,
{
    let now = after_attempt(started, appid, true);
    if started.contains(id) {
        assert(now[started.index_of(id)] == id);
    }
    if !started.contains(appid) {
        assert(now[started.len() as int] == appid);
    }
    if now.contains(id) && id != appid {
        assert(started[now.index_of(id)] == id);
    }
}

/// What `consider` decides: the entry is skipped where `NotShowIn` holds this desktop, where
/// `OnlyShowIn` lacks it, where its program was started or where it has no command line, and in no
/// other case.
pub proof fn law_considered_entries_are_skipped_for_four_reasons(
    autostart: &Autostart,
    entry: &AutostartEntry,
    r: Decision,
)
    requires
        call_ensures(Autostart::consider, (autostart, entry), r),
    ensures
        r is Skip <==> (entry@.not_show_in is Some && entry@.not_show_in->0.contains("COSMIC"@)) || (
        entry@.only_show_in is Some && !entry@.only_show_in->0.contains("COSMIC"@))
            || autostart.started().contains(entry.appid@) || entry@.command is None,
{
    law_each_rule_excludes_on_its_own(autostart.started(), entry@);
}

/// What `consider` launches: the program that the command line names up to its first space, with the
/// words of its arguments, whatever else the entry says. Where the command line is the name and one
/// further word of ordinary characters, that word is the argument, unless it begins with `%`.
pub proof fn law_considered_command_line_is_launched(
    autostart: &Autostart,
    entry: &AutostartEntry,
    r: Decision,
    name: Seq<char>,
    word: Seq<char>,
)
    requires
        call_ensures(Autostart::consider, (autostart, entry), r),
        !(r is Skip),
        !name.contains(' '),
        !word.contains(' '),
        word.len() > 0,
        ordinary(name.push(' ') + word),
        entry@.command == Some(name.push(' ') + word),
    ensures
        r is Launch,
        r->program@ == name,
        r->args.deep_view() == if word[0] == '%' {
            Seq::<Seq<char>>::empty()
        } else {
            seq![word]
        },
{
    let command = name.push(' ') + word;
    law_each_rule_excludes_on_its_own(autostart.started(), entry@);
    law_program_name_ends_at_the_first_space(name, word);
    law_each_word_is_an_argument_or_a_placeholder(name, name, word);
    reveal_with_fuel(Seq::filter, 2);
    assert(eligible(autostart.started(), entry@));
    let kept = plain_words(command);
    if word[0] == '%' {
        assert(kept =~= Seq::<Seq<char>>::empty());
    } else {
        assert(kept =~= seq![word]);
        assert(kept.drop_last() =~= Seq::<Seq<char>>::empty());
    }
    let nonempty = |w: Seq<char>| w.len() > 0;
    assert(kept.filter(nonempty) =~= kept);
}

/// What splits is launched as it was split, and what does not split is a bad argument.
pub proof fn law_split_arguments_are_launched(
    program: String,
    args: Vec<String>,
    good: Decision,
    bad: Decision,
)
    requires
        call_ensures(decide, (program, Some(args)), good),
        call_ensures(decide, (program, None::<Vec<String>>), bad),
    ensures
        good is Launch,
        good->program@ == program@,
        good->args.deep_view() == args.deep_view(),
        bad is BadArguments,
{
}

/// The directories to look through are those of a list, each with `autostart` in it, behind that of
/// the user: a list of two lists is looked through as the one and then the other.
pub proof fn law_directories_follow_the_list(
    user: Vec<u8>,
    a: Vec<u8>,
    b: Vec<u8>,
    both: Vec<u8>,
    of_a: Vec<Vec<u8>>,
    of_b: Vec<Vec<u8>>,
    of_both: Vec<Vec<u8>>,
)
    requires
        both@ == a@.push(58u8) + b@,
        call_ensures(directories_to_scan, (None::<Vec<u8>>, Some(a)), of_a),
        call_ensures(directories_to_scan, (None::<Vec<u8>>, Some(b)), of_b),
        call_ensures(directories_to_scan, (Some(user), Some(both)), of_both),
    ensures
        of_both.deep_view() == seq![autostart_in(user@)] + of_a.deep_view() + of_b.deep_view(),
        !a@.contains(58u8) ==> of_a.deep_view() == seq![autostart_in(a@)],
{
    assert(user.deep_view() =~= user@);
    assert(a.deep_view() =~= a@);
    assert(b.deep_view() =~= b@);
    assert(both.deep_view() =~= both@);
    law_listed_directories_are_scanned_in_order(user@, Some(both@), a@, b@);
    assert(of_both.deep_view() =~= seq![autostart_in(user@)] + of_a.deep_view()
        + of_b.deep_view());
}

/// A program is launched with the arguments that it is given, in the session's environment.
pub proof fn law_program_has_the_session_environment(
    program: String,
    args: Vec<String>,
    env_vars: &[(String, String)],
    r: Launch,
)
    requires
        call_ensures(program_launch, (program, args, env_vars), r),
    ensures
        r.executable@ == program@,
        r.args@ == args@,
        r.env_vars.deep_view() == env_vars.deep_view(),
{
}

/// The name and the arguments on a command line: the first word, and the others without those that
/// begin with `%`.
pub proof fn law_command_line_has_a_name_and_arguments(
    command: &str,
    name: Seq<char>,
    word: Seq<char>,
    r: (String, String),
)
    requires
        call_ensures(command_parts, (command,), r),
        !name.contains(' '),
        !word.contains(' '),
    ensures
        command@ == name ==> r.0@ == name && r.1@.len() == 0,
        command@ == name.push(' ') + word ==> r.0@ == name && r.1@ == if word.len() > 0 && word[0]
            == '%' {
            Seq::<char>::empty()
        } else {
            word
        },
{
    law_program_name_ends_at_the_first_space(name, word);
    law_each_word_is_an_argument_or_a_placeholder(name, name, word);
    assert(joined(Seq::<Seq<char>>::empty(), " "@) =~= Seq::<char>::empty());
    if command@ == name.push(' ') + word {
        if word.len() > 0 && word[0] == '%' {
            assert(r.1@ =~= Seq::<char>::empty());
        } else {
            assert(plain_words(command@) =~= seq![word]);
            assert(r.1@ =~= word);
        }
    }
}

} // verus!
