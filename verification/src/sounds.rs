//! Which sound plays when new mail arrives, and where the desktop's sound
//! theme keeps it.
//!
//! The choice is stored as one string, as a setting for the app-wide default
//! and in the accounts table for a per-account override. The playback itself
//! lives in the interface; this module only decides what to play.

use vstd::prelude::*;
use crate::compose;
use crate::mail;
use crate::text;

verus! {

/// The freedesktop sound-naming-spec event for new mail. Themes that don't
/// ship it fall back down the name, so it ends at the generic `message`.
pub const NEW_MAIL_EVENT: &'static str = "message-new-email";

/// The theme every other theme inherits from, per the spec.
pub const FALLBACK_THEME: &'static str = "freedesktop";

// --- the stored choice ----------------------------------------------------

/// A stored sound choice.
#[derive(Debug, PartialEq, Eq)]
pub enum NotificationSound {
    /// Use the app-wide default (only meaningful for an account).
    Inherit,
    /// The desktop sound theme's new-mail sound.
    System,
    /// No sound.
    Silent,
    /// An audio file of the user's choosing.
    File(String),
}

/// What a sound choice says.
pub enum SoundView {
    Inherit,
    System,
    Silent,
    File(Seq<char>),
}

impl View for NotificationSound {
    type V = SoundView;

    open spec fn view(&self) -> SoundView {
        match self {
            NotificationSound::Inherit => SoundView::Inherit,
            NotificationSound::System => SoundView::System,
            NotificationSound::Silent => SoundView::Silent,
            NotificationSound::File(path) => SoundView::File(path@),
        }
    }
}

impl Clone for NotificationSound {
    fn clone(&self) -> (r: Self)
        ensures
            r == *self,
    {
        match self {
            NotificationSound::Inherit => NotificationSound::Inherit,
            NotificationSound::System => NotificationSound::System,
            NotificationSound::Silent => NotificationSound::Silent,
            NotificationSound::File(path) => NotificationSound::File(path.clone()),
        }
    }
}

/// The choice that a stored form stands for.
pub open spec fn choice_in(stored: Seq<char>) -> SoundView {
    let t = text::trim(stored);
    if t.len() == 0 {
        SoundView::Inherit
    } else if t == "system"@ {
        SoundView::System
    } else if t == "none"@ {
        SoundView::Silent
    } else {
        SoundView::File(t)
    }
}

/// The stored form of a choice.
pub open spec fn setting_of(choice: SoundView) -> Seq<char> {
    match choice {
        SoundView::Inherit => Seq::empty(),
        SoundView::System => "system"@,
        SoundView::Silent => "none"@,
        SoundView::File(path) => path,
    }
}

/// The choice that counts: the account's own unless it inherits, else the app default, which means
/// the system sound where it inherits itself.
pub open spec fn resolved(account: SoundView, app: SoundView) -> SoundView {
    match account {
        SoundView::Inherit => match app {
            SoundView::Inherit => SoundView::System,
            other => other,
        },
        other => other,
    }
}

/// A stored choice reads back as itself, if the path of a file is none of the words for the other
/// choices and has no white space around it.
pub proof fn choices_read_back(choice: SoundView)
    requires
        choice matches SoundView::File(path) ==> path.len() > 0 && text::trim(path) == path && path
            != "system"@ && path != "none"@,
    ensures
        choice_in(setting_of(choice)) == choice,
{
    reveal_strlit("system");
    reveal_strlit("none");
    let empty = Seq::<char>::empty();
    assert(text::trim(empty) =~= empty);
    let s = "system"@;
    assert(text::lead_end(s, 0) == 0);
    assert(text::tail_start(s, 0, 6) == 6);
    assert(s.subrange(0, 6) =~= s);
    let n = "none"@;
    assert(text::lead_end(n, 0) == 0);
    assert(text::tail_start(n, 0, 4) == 4);
    assert(n.subrange(0, 4) =~= n);
    assert(n.len() != s.len());
}

/// What counts is never to inherit.
pub proof fn resolved_never_inherits(account: SoundView, app: SoundView)
    ensures
        !(resolved(account, app) is Inherit),
{
}

// --- paths ----------------------------------------------------------------

/// A path joined to a directory: an absolute one stands alone.
pub open spec fn joined(dir: Seq<char>, name: Seq<char>) -> Seq<char> {
    if name.len() > 0 && name[0] == '/' {
        name
    } else if dir.len() == 0 || dir.last() == '/' {
        dir + name
    } else {
        dir + "/"@ + name
    }
}

/// A path without what its end leaves unnamed: slashes, and the components that only stand for the
/// directory before them.
pub open spec fn bare(path: Seq<char>) -> Seq<char>
    decreases path.len(),
{
    if path.len() > 0 && (path.last() == '/' || (path.last() == '.' && path.len() > 1 && path[
        path.len() - 2
    ] == '/')) {
        bare(path.drop_last())
    } else {
        path
    }
}

/// The last component of a path.
pub open spec fn last_component(path: Seq<char>) -> Seq<char> {
    bare(path).skip(text::rfind(bare(path), '/') + 1)
}

/// The name of the file at a path, unless it ends in the name of a directory's self or parent.
pub open spec fn file_name_of(path: Seq<char>) -> Option<Seq<char>> {
    let name = last_component(path);
    if name.len() == 0 || name == "."@ || name == ".."@ {
        None
    } else {
        Some(name)
    }
}

/// A name without what follows its last dot, unless it starts with that dot.
pub open spec fn stem_of(name: Seq<char>) -> Seq<char> {
    if text::rfind(name, '.') > 0 {
        name.take(text::rfind(name, '.'))
    } else {
        name
    }
}

/// A path with another extension, or as it is where it has no file name.
pub open spec fn with_extension(path: Seq<char>, extension: Seq<char>) -> Seq<char> {
    match file_name_of(path) {
        Some(name) => bare(path).take(text::rfind(bare(path), '/') + 1) + stem_of(name) + "."@
            + extension,
        None => path,
    }
}

fn join_paths(dir: &str, name: &str) -> (r: String)
    ensures
        r@ == joined(dir@, name@),
{
    let tail = text::chars_of(name);
    if tail.len() > 0 && tail[0] == '/' {
        return name.to_owned();
    }
    let mut out = text::chars_of(dir);
    if out.len() > 0 && out[out.len() - 1] != '/' {
        text::extend_str(&mut out, "/");
    }
    text::extend(&mut out, &tail);
    text::text_of(&out)
}

fn bare_path(path: &str) -> (r: Vec<char>)
    ensures
        r@ == bare(path@),
{
    let mut out = text::chars_of(path);
    while out.len() > 0 && (out[out.len() - 1] == '/' || (out[out.len() - 1] == '.' && out.len() > 1
        && out[out.len() - 2] == '/'))
        invariant
            bare(out@) == bare(path@),
        decreases out.len(),
    {
        let ghost before = out@;
        out.pop();
        assert(out@ =~= before.drop_last());
    }
    out
}

/// The place of the last component in a path without an unnamed end.
fn component_start(path: &[char]) -> (r: usize)
    ensures
        r == text::rfind(path@, '/') + 1,
        r <= path.len(),
{
    match text::rfind_char(path, '/') {
        Some(at) => at + 1,
        None => 0,
    }
}

/// The name of the file at a path, unless it ends in the name of a directory's self or parent.
pub fn file_name_in(path: &str) -> (r: Option<String>)
    ensures
        mail::opt(r) == file_name_of(path@),
{
    let whole = bare_path(path);
    let start: usize = component_start(&whole);
    let name = text::slice_of(&whole, start, whole.len());
    assert(name@ =~= last_component(path@));
    if name.len() == 0 || text::same(&name, &text::chars_of(".")) || text::same(
        &name,
        &text::chars_of(".."),
    ) {
        None
    } else {
        Some(text::text_of(&name))
    }
}

fn set_extension(path: &str, extension: &str) -> (r: String)
    ensures
        r@ == with_extension(path@, extension@),
{
    match file_name_in(path) {
        Some(name) => {
            let whole = bare_path(path);
            let start: usize = component_start(&whole);
            let mut out = text::slice_of(&whole, 0, start);
            assert(out@ =~= bare(path@).take(start as int));
            let chars = text::chars_of(&name);
            let stem: Vec<char> = match text::rfind_char(&chars, '.') {
                Some(at) => if at > 0 {
                    let head = text::slice_of(&chars, 0, at);
                    assert(head@ =~= name@.take(at as int));
                    head
                } else {
                    chars
                },
                None => chars,
            };
            text::extend(&mut out, &stem);
            text::extend_str(&mut out, ".");
            text::extend_str(&mut out, extension);
            text::text_of(&out)
        },
        None => path.to_owned(),
    }
}

// --- the choice's methods -------------------------------------------------

impl NotificationSound {
    /// Parse the stored form: "" inherits, "system", "none", or a path.
    pub fn parse(text: &str) -> (r: Self)
        ensures
            r@ == choice_in(text@),
    {
        let t = text::trim_str(text);
        if t.as_str().is_empty() {
            NotificationSound::Inherit
        } else if text::same_str(&t, "system") {
            NotificationSound::System
        } else if text::same_str(&t, "none") {
            NotificationSound::Silent
        } else {
            NotificationSound::File(t)
        }
    }

    /// The stored form; the inverse of [`NotificationSound::parse`].
    pub fn as_setting(&self) -> (r: String)
        ensures
            r@ == setting_of(self@),
    {
        match self {
            NotificationSound::Inherit => String::new(),
            NotificationSound::System => "system".to_owned(),
            NotificationSound::Silent => "none".to_owned(),
            NotificationSound::File(path) => path.clone(),
        }
    }

    /// The account's own choice unless it inherits, in which case the app
    /// default; an app default that somehow inherits means the system
    /// sound, so the result is never `Inherit`.
    pub fn resolve(account: &Self, app: &Self) -> (r: Self)
        ensures
            r@ == resolved(account@, app@),
    {
        match account {
            NotificationSound::Inherit => match app {
                NotificationSound::Inherit => NotificationSound::System,
                other => other.clone(),
            },
            other => other.clone(),
        }
    }

    /// The file's name, for showing which one is chosen.
    pub fn file_name(&self) -> (r: Option<String>)
        ensures
            mail::opt(r) == (match self@ {
                SoundView::File(path) => file_name_of(path),
                _ => None,
            }),
    {
        match self {
            NotificationSound::File(path) => file_name_in(path),
            _ => None,
        }
    }
}

// --- where themes are -----------------------------------------------------

/// The directories in a list of them, with the one for sounds below each.
pub open spec fn sound_dirs(pieces: Seq<Seq<char>>) -> Seq<Seq<char>>
    decreases pieces.len(),
{
    if pieces.len() == 0 {
        Seq::empty()
    } else {
        let before = sound_dirs(pieces.drop_last());
        if pieces.last().len() > 0 {
            before.push(joined(pieces.last(), "sounds"@))
        } else {
            before
        }
    }
}

/// Where the user's own data is: where the environment says, else below the home directory.
pub open spec fn data_home_of(home: Option<Seq<char>>, data_home: Option<Seq<char>>) -> Option<
    Seq<char>,
> {
    match data_home {
        Some(d) => Some(d),
        None => match home {
            Some(h) => Some(joined(h, ".local/share"@)),
            None => None,
        },
    }
}

/// The directories the sound theme spec says to search, in order.
pub open spec fn search_dirs_of(
    home: Option<Seq<char>>,
    data_home: Option<Seq<char>>,
    data_dirs: Option<Seq<char>>,
) -> Seq<Seq<char>> {
    let listed = match data_dirs {
        Some(d) => d,
        None => "/usr/local/share:/usr/share"@,
    };
    (match data_home_of(home, data_home) {
        Some(d) => seq![joined(d, "sounds"@)],
        None => Seq::empty(),
    }) + sound_dirs(text::split(listed, ':'))
}

/// The text behind an optional string slice.
pub open spec fn str_opt(s: Option<&str>) -> Option<Seq<char>> {
    match s {
        Some(t) => Some(t@),
        None => None,
    }
}

/// The directories the sound theme spec says to search, in order:
/// `$XDG_DATA_HOME/sounds` then each of `$XDG_DATA_DIRS/sounds`, given what `HOME` and these two
/// say.
pub fn theme_search_dirs(home: Option<&str>, data_home: Option<&str>, data_dirs: Option<&str>) -> (r:
    Vec<String>)
    ensures
        text::texts(r@) == search_dirs_of(str_opt(home), str_opt(data_home), str_opt(data_dirs)),
{
    let mut out: Vec<String> = Vec::new();
    match data_home {
        Some(d) => {
            out.push(join_paths(d, "sounds"));
            assert(text::texts(out@) =~= seq![joined(d@, "sounds"@)]);
        },
        None => match home {
            Some(h) => {
                out.push(join_paths(&join_paths(h, ".local/share"), "sounds"));
                assert(text::texts(out@) =~= seq![
                    joined(joined(h@, ".local/share"@), "sounds"@),
                ]);
            },
            None => {
                assert(text::texts(out@) =~= Seq::empty());
            },
        },
    }
    let listed: &str = match data_dirs {
        Some(d) => d,
        None => "/usr/local/share:/usr/share",
    };
    let pieces = text::split_at_char(&text::chars_of(listed), ':');
    let ghost views = text::char_texts(pieces@);
    let ghost start = text::texts(out@);
    let mut i: usize = 0;
    while i < pieces.len()
        invariant
            i <= pieces.len(),
            views == text::char_texts(pieces@),
            text::texts(out@) =~= start + sound_dirs(views.take(i as int)),
        decreases pieces.len() - i,
    {
        proof {
            assert(views.take(i + 1).drop_last() =~= views.take(i as int));
            assert(views.take(i + 1).last() == pieces@[i as int]@);
        }
        if pieces[i].len() > 0 {
            let ghost before = out@;
            let dir = join_paths(&text::text_of(&pieces[i]), "sounds");
            let ghost view = dir@;
            out.push(dir);
            assert(text::texts(out@) =~= text::texts(before).push(view));
        }
        i = i + 1;
    }
    assert(views.take(i as int) =~= views);
    out
}

// --- index.theme ----------------------------------------------------------

/// What the lines of an index.theme have said so far.
pub struct IndexView {
    pub in_theme_group: bool,
    pub subdirs: Seq<Seq<char>>,
    pub inherits: Seq<Seq<char>>,
}

/// What the lines of an index.theme say: the lists in its theme group.
pub open spec fn index_of(all: Seq<Seq<char>>) -> IndexView
    decreases all.len(),
{
    if all.len() == 0 {
        IndexView { in_theme_group: false, subdirs: Seq::empty(), inherits: Seq::empty() }
    } else {
        let before = index_of(all.drop_last());
        let line = text::trim(all.last());
        let equals = text::find(line, '=');
        if line.len() > 0 && line[0] == '[' {
            IndexView { in_theme_group: line == "[Sound Theme]"@, ..before }
        } else if !before.in_theme_group || equals >= line.len() {
            before
        } else {
            let key = text::trim(line.take(equals));
            let values = compose::nonblank(text::split(line.skip(equals + 1), ','));
            if key == "Directories"@ {
                IndexView { subdirs: before.subdirs + values, ..before }
            } else if key == "Inherits"@ {
                IndexView { inherits: before.inherits + values, ..before }
            } else {
                before
            }
        }
    }
}

fn push_all(out: &mut Vec<String>, more: Vec<String>)
    ensures
        final(out)@ == old(out)@ + more@,
        text::texts(final(out)@) == text::texts(old(out)@) + text::texts(more@),
{
    let mut i: usize = 0;
    while i < more.len()
        invariant
            i <= more.len(),
            out@ =~= old(out)@ + more@.take(i as int),
        decreases more.len() - i,
    {
        out.push(more[i].clone());
        i = i + 1;
    }
    assert(more@.take(i as int) =~= more@);
    assert(text::texts(out@) =~= text::texts(old(out)@) + text::texts(more@));
}

/// The `Directories` and `Inherits` lists of an index.theme.
pub fn parse_index(index: &str) -> (r: (Vec<String>, Vec<String>))
    ensures
        text::texts(r.0@) == index_of(text::lines(index@)).subdirs,
        text::texts(r.1@) == index_of(text::lines(index@)).inherits,
{
    let all = text::split_lines(&text::chars_of(index));
    let ghost views = text::char_texts(all@);
    let mut subdirs: Vec<String> = Vec::new();
    let mut inherits: Vec<String> = Vec::new();
    assert(text::texts(subdirs@) =~= Seq::empty());
    let mut in_theme_group = false;
    let mut i: usize = 0;
    while i < all.len()
        invariant
            i <= all.len(),
            views == text::char_texts(all@),
            in_theme_group == index_of(views.take(i as int)).in_theme_group,
            text::texts(subdirs@) == index_of(views.take(i as int)).subdirs,
            text::texts(inherits@) == index_of(views.take(i as int)).inherits,
        decreases all.len() - i,
    {
        proof {
            assert(views.take(i + 1).drop_last() =~= views.take(i as int));
            assert(views.take(i + 1).last() == all@[i as int]@);
        }
        let line = text::trimmed(&all[i]);
        if line.len() > 0 && line[0] == '[' {
            in_theme_group = text::same(&line, &text::chars_of("[Sound Theme]"));
        } else if in_theme_group {
            let equals: usize = text::find_char(&line, '=', 0);
            if equals < line.len() {
                let head = text::slice_of(&line, 0, equals);
                let tail = text::slice_of(&line, equals + 1, line.len());
                assert(head@ =~= line@.take(equals as int));
                assert(tail@ =~= line@.skip(equals + 1));
                let key = text::trimmed(&head);
                let values = compose::split_addresses(&text::text_of(&tail));
                if text::same(&key, &text::chars_of("Directories")) {
                    push_all(&mut subdirs, values);
                } else if text::same(&key, &text::chars_of("Inherits")) {
                    push_all(&mut inherits, values);
                }
            }
        }
        i = i + 1;
    }
    assert(views.take(i as int) =~= views);
    (subdirs, inherits)
}

// --- looking a sound up ---------------------------------------------------

/// A theme's directory below one of the directories that are searched.
#[derive(Clone, Debug)]
pub struct ThemeDir {
    pub theme: String,
    /// The text of its index.theme, empty where it has none.
    pub index: String,
}

/// One of the directories that are searched, with the themes in it.
#[derive(Clone, Debug)]
pub struct SearchDir {
    pub path: String,
    pub themes: Vec<ThemeDir>,
}

/// A file that a lookup asks for.
#[derive(Debug, PartialEq, Eq)]
pub struct Probe {
    pub path: String,
    /// Whether the file switches the sound off, rather than being it.
    pub silences: bool,
}

/// What a probe says.
pub struct ProbeView {
    pub path: Seq<char>,
    pub silences: bool,
}

impl View for Probe {
    type V = ProbeView;

    open spec fn view(&self) -> ProbeView {
        ProbeView { path: self.path@, silences: self.silences }
    }
}

/// What some probes say.
pub open spec fn probe_views(probes: Seq<Probe>) -> Seq<ProbeView> {
    Seq::new(probes.len(), |i: int| probes[i]@)
}

/// What looking for a sound gives.
pub enum Lookup {
    /// The sound is switched off here.
    Disabled,
    /// The sound is this file.
    Found(Seq<char>),
    /// There is nothing here.
    Missing,
}

/// The files asked for in one directory: a mark that the sound is off, then the known formats.
pub open spec fn format_probes(stem: Seq<char>) -> Seq<ProbeView> {
    seq![
        ProbeView { path: with_extension(stem, "disabled"@), silences: true },
        ProbeView { path: with_extension(stem, "oga"@), silences: false },
        ProbeView { path: with_extension(stem, "ogg"@), silences: false },
        ProbeView { path: with_extension(stem, "wav"@), silences: false },
    ]
}

/// The files asked for in the directories of a theme from the `i`th on.
pub open spec fn subdir_probes(
    theme_dir: Seq<char>,
    subdirs: Seq<Seq<char>>,
    name: Seq<char>,
    i: int,
) -> Seq<ProbeView>
    decreases subdirs.len() - i,
{
    if i < 0 || i >= subdirs.len() {
        Seq::empty()
    } else {
        format_probes(joined(joined(theme_dir, subdirs[i]), name)) + subdir_probes(
            theme_dir,
            subdirs,
            name,
            i + 1,
        )
    }
}

/// The files asked for under a name and those that it walks down to.
pub open spec fn name_probes(
    theme_dir: Seq<char>,
    subdirs: Seq<Seq<char>>,
    name: Seq<char>,
) -> Seq<ProbeView>
    decreases name.len(), 1int,
{
    subdir_probes(theme_dir, subdirs, name, 0) + shorter_probes(theme_dir, subdirs, name)
}

/// The files asked for under the names that a name walks down to.
pub open spec fn shorter_probes(
    theme_dir: Seq<char>,
    subdirs: Seq<Seq<char>>,
    name: Seq<char>,
) -> Seq<ProbeView>
    decreases name.len(), 0int,
{
    let dash = text::rfind(name, '-');
    if 0 <= dash < name.len() {
        name_probes(theme_dir, subdirs, name.take(dash))
    } else {
        Seq::empty()
    }
}

/// The files asked for in a theme's directory, walking down the event's name: `message-new-email`,
/// `message-new`, `message`.
pub open spec fn probes_of(theme_dir: Seq<char>, index: Seq<char>, event: Seq<char>) -> Seq<
    ProbeView,
> {
    name_probes(theme_dir, index_of(text::lines(index)).subdirs.push("stereo"@), event)
}

/// What the first of some probes, from the `i`th on, whose file is there gives.
pub open spec fn first_hit(probes: Seq<ProbeView>, files: Seq<Seq<char>>, i: int) -> Lookup
    decreases probes.len() - i,
{
    if i < 0 || i >= probes.len() {
        Lookup::Missing
    } else if !files.contains(probes[i].path) {
        first_hit(probes, files, i + 1)
    } else if probes[i].silences {
        Lookup::Disabled
    } else {
        Lookup::Found(probes[i].path)
    }
}

/// The themes that a theme inherits from.
pub open spec fn parents_of(dir: ThemeDir) -> Seq<Seq<char>> {
    index_of(text::lines(dir.index@)).inherits
}

/// The place of a theme among those of a directory, from `i` on.
pub open spec fn theme_at(themes: Seq<ThemeDir>, theme: Seq<char>, i: int) -> Option<int>
    decreases themes.len() - i,
{
    if i < 0 || i >= themes.len() {
        None
    } else if themes[i].theme@ == theme {
        Some(i)
    } else {
        theme_at(themes, theme, i + 1)
    }
}

/// What looking a theme up in the directories up to `n` gives.
pub struct Searched {
    pub found: Lookup,
    /// The parents that the theme named in the directories that had nothing.
    pub parents: Seq<Seq<char>>,
}

/// What looking a theme up in the first `n` directories gives: the first that has something. The
/// parents come last first.
pub open spec fn searched(
    dirs: Seq<SearchDir>,
    files: Seq<Seq<char>>, event: Seq<char>,
    theme: Seq<char>,
    n: int,
) -> Searched
    decreases n,
{
    if n <= 0 || n > dirs.len() {
        Searched { found: Lookup::Missing, parents: Seq::empty() }
    } else {
        let before = searched(dirs, files, event, theme, n - 1);
        let dir = dirs[n - 1];
        match (before.found, theme_at(dir.themes@, theme, 0)) {
            (Lookup::Missing, Some(at)) => {
                let td = dir.themes@[at];
                Searched {
                    found: first_hit(
                        probes_of(joined(dir.path@, theme), td.index@, event),
                        files,
                        0,
                    ),
                    parents: before.parents + parents_of(td).reverse(),
                }
            },
            _ => before,
        }
    }
}

/// Every theme that one of the directories up to `n` names as a parent of a theme.
pub open spec fn named_parents(themes: Seq<ThemeDir>, n: int) -> Seq<Seq<char>>
    decreases n,
{
    if n <= 0 || n > themes.len() {
        Seq::empty()
    } else {
        named_parents(themes, n - 1) + parents_of(themes[n - 1])
    }
}

/// Every theme that a search can come by.
pub open spec fn known_themes(dirs: Seq<SearchDir>, n: int, theme: Seq<char>) -> Seq<Seq<char>>
    decreases n,
{
    if n <= 0 || n > dirs.len() {
        seq![theme, FALLBACK_THEME@]
    } else {
        known_themes(dirs, n - 1, theme) + named_parents(
            dirs[n - 1].themes@,
            dirs[n - 1].themes@.len() as int,
        )
    }
}

/// How many of some themes have not been visited.
pub open spec fn unvisited(all: Seq<Seq<char>>, visited: Seq<Seq<char>>) -> nat
    decreases all.len(),
{
    if all.len() == 0 {
        0
    } else {
        unvisited(all.drop_last(), visited) + (if visited.contains(all.last()) {
            0nat
        } else {
            1nat
        })
    }
}

/// The themes still to be visited after one had nothing: its parents next, and the fallback theme
/// after all others.
pub open spec fn queued(
    rest: Seq<Seq<char>>,
    theme: Seq<char>,
    parents: Seq<Seq<char>>,
) -> Seq<Seq<char>> {
    let next = rest + parents;
    if theme != FALLBACK_THEME@ && !next.contains(FALLBACK_THEME@) {
        seq![FALLBACK_THEME@] + next
    } else {
        next
    }
}

/// What visiting the queued themes gives, the last of the queue first, each theme once.
pub open spec fn visit(
    dirs: Seq<SearchDir>,
    files: Seq<Seq<char>>, event: Seq<char>,
    all: Seq<Seq<char>>,
    queue: Seq<Seq<char>>,
    visited: Seq<Seq<char>>,
) -> Lookup
    decreases unvisited(all, visited), queue.len(),
{
    if queue.len() == 0 {
        Lookup::Missing
    } else {
        let theme = queue.last();
        let rest = queue.drop_last();
        if visited.contains(theme) || !all.contains(theme) {
            visit(dirs, files, event, all, rest, visited)
        } else {
            proof {
                visiting_leaves_fewer(all, visited, theme);
            }
            let result = searched(dirs, files, event, theme, dirs.len() as int);
            match result.found {
                Lookup::Missing => visit(
                    dirs,
                    files, event,
                    all,
                    queued(rest, theme, result.parents),
                    visited.push(theme),
                ),
                other => other,
            }
        }
    }
}

pub proof fn fewer_or_same(all: Seq<Seq<char>>, visited: Seq<Seq<char>>, theme: Seq<char>)
    ensures
        unvisited(all, visited.push(theme)) <= unvisited(all, visited),
    decreases all.len(),
{
    if all.len() > 0 {
        fewer_or_same(all.drop_last(), visited, theme);
        let after = visited.push(theme);
        if visited.contains(all.last()) {
            let k = choose|k: int| 0 <= k < visited.len() && visited[k] == all.last();
            assert(after[k] == all.last());
        }
    }
}

pub proof fn visiting_leaves_fewer(all: Seq<Seq<char>>, visited: Seq<Seq<char>>, theme: Seq<char>)
    requires
        all.contains(theme),
        !visited.contains(theme),
    ensures
        unvisited(all, visited.push(theme)) < unvisited(all, visited),
    decreases all.len(),
{
    let rest = all.drop_last();
    let after = visited.push(theme);
    if all.last() == theme {
        fewer_or_same(rest, visited, theme);
        assert(after[visited.len() as int] == theme);
    } else {
        let k = choose|k: int| 0 <= k < all.len() && all[k] == theme;
        assert(rest[k] == theme);
        visiting_leaves_fewer(rest, visited, theme);
        if visited.contains(all.last()) {
            let j = choose|j: int| 0 <= j < visited.len() && visited[j] == all.last();
            assert(after[j] == all.last());
        }
    }
}

/// The event's sound file, if it has one that is not switched off.
pub open spec fn sound_of(dirs: Seq<SearchDir>, files: Seq<Seq<char>>, event: Seq<char>, theme: Seq<char>) -> Option<
    Seq<char>,
> {
    match visit(
        dirs,
        files, event,
        known_themes(dirs, dirs.len() as int, theme),
        seq![theme],
        Seq::empty(),
    ) {
        Lookup::Found(path) => Some(path),
        _ => None,
    }
}

/// What looking for a sound gave.
enum Hit {
    Disabled,
    Found(String),
    Missing,
}

impl View for Hit {
    type V = Lookup;

    closed spec fn view(&self) -> Lookup {
        match self {
            Hit::Disabled => Lookup::Disabled,
            Hit::Found(path) => Lookup::Found(path@),
            Hit::Missing => Lookup::Missing,
        }
    }
}

/// The files that a lookup asks for in a theme's directory, in order.
pub fn theme_probes(theme_dir: &str, index: &str, event: &str) -> (r: Vec<Probe>)
    ensures
        probe_views(r@) == probes_of(theme_dir@, index@, event@),
{
    let (mut subdirs, inherits) = parse_index(index);
    let ghost listed = subdirs@;
    subdirs.push("stereo".to_owned());
    let ghost dirs = text::texts(subdirs@);
    assert(dirs =~= index_of(text::lines(index@)).subdirs.push("stereo"@)) by {
        assert(dirs =~= text::texts(listed).push("stereo"@));
    }
    let mut name: String = event.to_owned();
    let mut out: Vec<Probe> = Vec::new();
    loop
        invariant
            dirs == text::texts(subdirs@),
            dirs == index_of(text::lines(index@)).subdirs.push("stereo"@),
            probe_views(out@) + name_probes(theme_dir@, dirs, name@) =~= probes_of(
                theme_dir@,
                index@,
                event@,
            ),
        decreases name@.len(),
    {
        let mut i: usize = 0;
        while i < subdirs.len()
            invariant
                i <= subdirs.len(),
                dirs == text::texts(subdirs@),
                probe_views(out@) + subdir_probes(theme_dir@, dirs, name@, i as int)
                    + shorter_probes(theme_dir@, dirs, name@) =~= probes_of(
                    theme_dir@,
                    index@,
                    event@,
                ),
            decreases subdirs.len() - i,
        {
            let stem = join_paths(&join_paths(theme_dir, &subdirs[i]), &name);
            assert(dirs[i as int] == subdirs@[i as int]@);
            let ghost before = out@;
            out.push(Probe { path: set_extension(&stem, "disabled"), silences: true });
            out.push(Probe { path: set_extension(&stem, "oga"), silences: false });
            out.push(Probe { path: set_extension(&stem, "ogg"), silences: false });
            out.push(Probe { path: set_extension(&stem, "wav"), silences: false });
            assert(probe_views(out@) =~= probe_views(before) + format_probes(stem@));
            i = i + 1;
        }
        let chars = text::chars_of(&name);
        match text::rfind_char(&chars, '-') {
            Some(at) => {
                let shorter = text::slice_of(&chars, 0, at);
                assert(shorter@ =~= name@.take(at as int));
                name = text::text_of(&shorter);
            },
            None => {
                return out;
            },
        }
    }
}

fn first_there(probes: &[Probe], files: &[String]) -> (r: Hit)
    ensures
        r@ == first_hit(probe_views(probes@), text::texts(files@), 0),
{
    let ghost views = probe_views(probes@);
    let ghost all = text::texts(files@);
    let mut i: usize = 0;
    while i < probes.len()
        invariant
            i <= probes.len(),
            views == probe_views(probes@),
            all == text::texts(files@),
            first_hit(views, all, 0) == first_hit(views, all, i as int),
        decreases probes.len() - i,
    {
        assert(views[i as int] == probes@[i as int]@);
        if text::list_contains(files, &probes[i].path) {
            if probes[i].silences {
                return Hit::Disabled;
            }
            return Hit::Found(probes[i].path.clone());
        }
        i = i + 1;
    }
    Hit::Missing
}

fn find_theme(themes: &[ThemeDir], theme: &str) -> (r: Option<usize>)
    ensures
        match r {
            Some(i) => i < themes.len() && theme_at(themes@, theme@, 0) == Some(i as int),
            None => theme_at(themes@, theme@, 0) is None,
        },
{
    let mut i: usize = 0;
    while i < themes.len()
        invariant
            i <= themes.len(),
            theme_at(themes@, theme@, 0) == theme_at(themes@, theme@, i as int),
        decreases themes.len() - i,
    {
        if text::same_str(&themes[i].theme, theme) {
            return Some(i);
        }
        i = i + 1;
    }
    None
}

/// The texts of a list, the last first.
fn push_reversed(out: &mut Vec<String>, more: &[String])
    ensures
        text::texts(final(out)@) == text::texts(old(out)@) + text::texts(more@).reverse(),
{
    let ghost start = text::texts(out@);
    let ghost whole = text::texts(more@);
    let n: usize = more.len();
    let mut i: usize = 0;
    while i < n
        invariant
            i <= n,
            n == more.len(),
            whole == text::texts(more@),
            text::texts(out@) =~= start + whole.reverse().take(i as int),
        decreases n - i,
    {
        let ghost before = out@;
        out.push(more[n - 1 - i].clone());
        proof {
            assert(text::texts(out@) =~= text::texts(before).push(more@[n - 1 - i]@));
            assert(whole.reverse()[i as int] == more@[n - 1 - i]@);
            assert(whole.reverse().take(i + 1) =~= whole.reverse().take(i as int).push(
                more@[n - 1 - i]@,
            ));
        }
        i = i + 1;
    }
    assert(whole.reverse().take(i as int) =~= whole.reverse());
}

fn search(dirs: &[SearchDir], files: &[String], event: &str, theme: &str) -> (r: (Hit, Vec<String>))
    ensures
        r.0@ == searched(dirs@, text::texts(files@), event@, theme@, dirs@.len() as int).found,
        r.0@ is Missing ==> text::texts(r.1@) == searched(
            dirs@,
            text::texts(files@), event@,
            theme@,
            dirs@.len() as int,
        ).parents,
{
    let mut parents: Vec<String> = Vec::new();
    assert(text::texts(parents@) =~= Seq::empty());
    let mut i: usize = 0;
    while i < dirs.len()
        invariant
            i <= dirs.len(),
            searched(dirs@, text::texts(files@), event@, theme@, i as int).found is Missing,
            text::texts(parents@) == searched(dirs@, text::texts(files@), event@, theme@, i as int).parents,
        decreases dirs.len() - i,
    {
        if let Some(at) = find_theme(&dirs[i].themes, theme) {
            let td = &dirs[i].themes[at];
            let (subdirs, inherits) = parse_index(&td.index);
            let probes = theme_probes(&join_paths(&dirs[i].path, theme), &td.index, event);
            let hit = first_there(&probes, files);
            let ghost step = searched(dirs@, text::texts(files@), event@, theme@, i + 1);
            match hit {
                Hit::Missing => {
                    push_reversed(&mut parents, &inherits);
                },
                Hit::Disabled => {
                    assert(step.found is Disabled);
                    proof {
                        found_stays(dirs@, text::texts(files@), event@, theme@, i + 1, dirs@.len() as int);
                    }
                    return (Hit::Disabled, parents);
                },
                Hit::Found(path) => {
                    assert(step.found == Lookup::Found(path@));
                    proof {
                        found_stays(dirs@, text::texts(files@), event@, theme@, i + 1, dirs@.len() as int);
                    }
                    return (Hit::Found(path), parents);
                },
            }
        }
        i = i + 1;
    }
    (Hit::Missing, parents)
}

proof fn found_stays(dirs: Seq<SearchDir>, files: Seq<Seq<char>>, event: Seq<char>, theme: Seq<char>, i: int, n: int)
    requires
        0 <= i <= n <= dirs.len(),
        !(searched(dirs, files, event, theme, i).found is Missing),
    ensures
        searched(dirs, files, event, theme, n).found == searched(dirs, files, event, theme, i).found,
    decreases n - i,
{
    if i < n {
        found_stays(dirs, files, event, theme, i, n - 1);
    }
}

proof fn parents_are_named(themes: Seq<ThemeDir>, at: int, n: int, p: Seq<char>)
    requires
        0 <= at < n <= themes.len(),
        parents_of(themes[at]).contains(p),
    ensures
        named_parents(themes, n).contains(p),
    decreases n,
{
    let before = named_parents(themes, n - 1);
    let last = parents_of(themes[n - 1]);
    if at < n - 1 {
        parents_are_named(themes, at, n - 1, p);
        let k = choose|k: int| 0 <= k < before.len() && before[k] == p;
        assert((before + last)[k] == p);
    } else {
        let k = choose|k: int| 0 <= k < last.len() && last[k] == p;
        assert((before + last)[before.len() + k] == p);
    }
}

proof fn theme_at_is_in(themes: Seq<ThemeDir>, theme: Seq<char>, i: int)
    requires
        0 <= i,
    ensures
        theme_at(themes, theme, i) matches Some(at) ==> i <= at < themes.len(),
    decreases themes.len() - i,
{
    if i < themes.len() && themes[i].theme@ != theme {
        theme_at_is_in(themes, theme, i + 1);
    }
}

proof fn known_grows(dirs: Seq<SearchDir>, i: int, n: int, theme: Seq<char>, p: Seq<char>)
    requires
        0 <= i <= n <= dirs.len(),
        known_themes(dirs, i, theme).contains(p),
    ensures
        known_themes(dirs, n, theme).contains(p),
    decreases n - i,
{
    if i < n {
        known_grows(dirs, i, n - 1, theme, p);
        let before = known_themes(dirs, n - 1, theme);
        let k = choose|k: int| 0 <= k < before.len() && before[k] == p;
        let more = named_parents(dirs[n - 1].themes@, dirs[n - 1].themes@.len() as int);
        assert((before + more)[k] == p);
    }
}

proof fn parents_are_known(
    dirs: Seq<SearchDir>,
    files: Seq<Seq<char>>, event: Seq<char>,
    theme: Seq<char>,
    n: int,
    first: Seq<char>,
)
    requires
        0 <= n <= dirs.len(),
    ensures
        forall|k: int|
            0 <= k < searched(dirs, files, event, theme, n).parents.len() ==> known_themes(
                dirs,
                n,
                first,
            ).contains(#[trigger] searched(dirs, files, event, theme, n).parents[k]),
    decreases n,
{
    if n > 0 {
        parents_are_known(dirs, files, event, theme, n - 1, first);
        let before = searched(dirs, files, event, theme, n - 1);
        let result = searched(dirs, files, event, theme, n);
        let dir = dirs[n - 1];
        theme_at_is_in(dir.themes@, theme, 0);
        assert forall|k: int| 0 <= k < result.parents.len() implies known_themes(
            dirs,
            n,
            first,
        ).contains(#[trigger] result.parents[k]) by {
            if k < before.parents.len() {
                assert(result.parents[k] == before.parents[k]);
                known_grows(dirs, n - 1, n, first, before.parents[k]);
            } else {
                let at = theme_at(dir.themes@, theme, 0).unwrap();
                let parents = parents_of(dir.themes@[at]);
                let p = result.parents[k];
                let j = k - before.parents.len();
                assert(p == parents.reverse()[j]);
                assert(p == parents[parents.len() - 1 - j]);
                assert(parents.contains(p));
                parents_are_named(dir.themes@, at, dir.themes@.len() as int, p);
                let known = known_themes(dirs, n - 1, first);
                let more = named_parents(dir.themes@, dir.themes@.len() as int);
                let m = choose|m: int| 0 <= m < more.len() && more[m] == p;
                assert((known + more)[known.len() + m] == p);
            }
        }
    }
}

/// The event's sound file in `theme`, or in whatever it inherits from,
/// or in the freedesktop theme, walking down the event name at each step
/// (`message-new-email`, `message-new`, `message`). None when no theme has
/// it or the theme marks it `.disabled`. `search_dirs` holds the themes that are there, and `files`
/// the files that are there among those that [`theme_probes`] asks for.
pub fn theme_sound_path(
    event: &str,
    theme: &str,
    search_dirs: &[SearchDir],
    files: &[String],
) -> (r: Option<String>)
    ensures
        mail::opt(r) == sound_of(search_dirs@, text::texts(files@), event@, theme@),
{
    let ghost all = known_themes(search_dirs@, search_dirs@.len() as int, theme@);
    let mut visited: Vec<String> = Vec::new();
    let mut queue: Vec<String> = Vec::new();
    queue.push(theme.to_owned());
    proof {
        assert(text::texts(visited@) =~= Seq::empty());
        assert(text::texts(queue@) =~= seq![theme@]);
        let base = seq![theme@, FALLBACK_THEME@];
        assert(known_themes(search_dirs@, 0, theme@) == base);
        assert(base[0] == theme@ && base[1] == FALLBACK_THEME@);
        known_grows(search_dirs@, 0, search_dirs@.len() as int, theme@, theme@);
        known_grows(search_dirs@, 0, search_dirs@.len() as int, theme@, FALLBACK_THEME@);
    }
    while queue.len() > 0
        invariant
            all == known_themes(search_dirs@, search_dirs@.len() as int, theme@),
            all.contains(FALLBACK_THEME@),
            forall|k: int| 0 <= k < queue.len() ==> all.contains((#[trigger] queue@[k])@),
            visit(search_dirs@, text::texts(files@), event@, all, text::texts(queue@), text::texts(visited@)) == visit(
                search_dirs@,
                text::texts(files@), event@,
                all,
                seq![theme@],
                Seq::empty(),
            ),
        decreases unvisited(all, text::texts(visited@)), queue.len(),
    {
        let ghost q0 = text::texts(queue@);
        let ghost v0 = text::texts(visited@);
        let next: String = match queue.pop() {
            Some(t) => t,
            None => String::new(),
        };
        proof {
            assert(q0.last() == next@);
            assert(q0.drop_last() =~= text::texts(queue@));
            assert(all.contains(next@));
        }
        if !text::list_contains(&visited, &next) {
            proof {
                visiting_leaves_fewer(all, v0, next@);
            }
            let ghost before = visited@;
            visited.push(next.clone());
            assert(text::texts(visited@) =~= v0.push(next@));
            let (hit, parents) = search(search_dirs, files, event, &next);
            match hit {
                Hit::Disabled => {
                    return None;
                },
                Hit::Found(path) => {
                    return Some(path);
                },
                Hit::Missing => {
                    let ghost rest = text::texts(queue@);
                    let ghost known = text::texts(parents@);
                    proof {
                        parents_are_known(
                            search_dirs@,
                            text::texts(files@), event@,
                            next@,
                            search_dirs@.len() as int,
                            theme@,
                        );
                        assert forall|k: int| 0 <= k < parents.len() implies all.contains(
                            (#[trigger] parents@[k])@,
                        ) by {
                            assert(known[k] == parents@[k]@);
                        }
                    }
                    let ghost head = queue@;
                    push_all(&mut queue, parents);
                    if !text::same_str(&next, FALLBACK_THEME) && !text::list_contains(
                        &queue,
                        FALLBACK_THEME,
                    ) {
                        let ghost tail = queue@;
                        queue.insert(0, FALLBACK_THEME.to_owned());
                        assert(text::texts(queue@) =~= seq![FALLBACK_THEME@] + text::texts(tail));
                    }
                    assert(text::texts(queue@) == queued(rest, next@, known));
                },
            }
        }
    }
    None
}


/// The themes that a lookup may come by: the theme itself, the fallback, and all that the given
/// themes name as parents.
pub fn themes_named(theme: &str, search_dirs: &[SearchDir]) -> (r: Vec<String>)
    ensures
        text::texts(r@) == known_themes(search_dirs@, search_dirs@.len() as int, theme@),
{
    let mut out: Vec<String> = Vec::new();
    out.push(theme.to_owned());
    out.push(FALLBACK_THEME.to_owned());
    assert(text::texts(out@) =~= seq![theme@, FALLBACK_THEME@]);
    let mut i: usize = 0;
    while i < search_dirs.len()
        invariant
            i <= search_dirs.len(),
            text::texts(out@) =~= known_themes(search_dirs@, i as int, theme@),
        decreases search_dirs.len() - i,
    {
        let themes = &search_dirs[i].themes;
        let ghost start = text::texts(out@);
        let mut j: usize = 0;
        while j < themes.len()
            invariant
                j <= themes.len(),
                text::texts(out@) =~= start + named_parents(themes@, j as int),
            decreases themes.len() - j,
        {
            let (subdirs, inherits) = parse_index(&themes[j].index);
            push_all(&mut out, inherits);
            j = j + 1;
        }
        i = i + 1;
    }
    out
}

/// The first of the asked files that is there decides: it is the sound, or switches it off. Where
/// none is there, nothing is found.
pub proof fn the_first_file_decides(probes: Seq<ProbeView>, files: Seq<Seq<char>>, k: int)
    ensures
        0 <= k < probes.len() && files.contains(probes[k].path) && (forall|m: int|
            0 <= m < k ==> !files.contains((#[trigger] probes[m]).path)) ==> first_hit(
            probes,
            files,
            0,
        ) == (if probes[k].silences {
            Lookup::Disabled
        } else {
            Lookup::Found(probes[k].path)
        }),
        (forall|m: int| 0 <= m < probes.len() ==> !files.contains((#[trigger] probes[m]).path))
            ==> first_hit(probes, files, 0) is Missing,
{
    if 0 <= k < probes.len() && files.contains(probes[k].path) && forall|m: int|
        0 <= m < k ==> !files.contains((#[trigger] probes[m]).path) {
        missing_files_are_passed(probes, files, 0, k);
    }
    if forall|m: int| 0 <= m < probes.len() ==> !files.contains((#[trigger] probes[m]).path) {
        missing_files_are_passed(probes, files, 0, probes.len() as int);
    }
}

proof fn missing_files_are_passed(
    probes: Seq<ProbeView>,
    files: Seq<Seq<char>>,
    i: int,
    k: int,
)
    requires
        0 <= i <= k <= probes.len(),
        forall|m: int| i <= m < k ==> !files.contains((#[trigger] probes[m]).path),
    ensures
        first_hit(probes, files, i) == first_hit(probes, files, k),
    decreases k - i,
{
    if i < k {
        assert(!files.contains(probes[i].path));
        missing_files_are_passed(probes, files, i + 1, k);
    }
}

/// The name that is asked for next to a name: what stands before its last dash.
pub open spec fn shortened(name: Seq<char>) -> Option<Seq<char>> {
    let dash = text::rfind(name, '-');
    if 0 <= dash {
        Some(name.take(dash))
    } else {
        None
    }
}

/// Every directory of a theme is asked, in order, for the mark that the sound is off and for each of
/// the formats, all under the whole name before any under a shorter one.
pub proof fn every_directory_is_asked(
    theme_dir: Seq<char>,
    subdirs: Seq<Seq<char>>,
    name: Seq<char>,
    i: int,
)
    requires
        0 <= i < subdirs.len(),
    ensures
        ({
            let probes = name_probes(theme_dir, subdirs, name);
            let stem = joined(joined(theme_dir, subdirs[i]), name);
            &&& 4 * i + 3 < probes.len()
            &&& probes[4 * i] == (ProbeView {
                path: with_extension(stem, "disabled"@),
                silences: true,
            })
            &&& probes[4 * i + 1] == (ProbeView {
                path: with_extension(stem, "oga"@),
                silences: false,
            })
            &&& probes[4 * i + 2] == (ProbeView {
                path: with_extension(stem, "ogg"@),
                silences: false,
            })
            &&& probes[4 * i + 3] == (ProbeView {
                path: with_extension(stem, "wav"@),
                silences: false,
            })
            &&& match shortened(name) {
                Some(shorter) => probes.skip(4 * subdirs.len() as int) == name_probes(
                    theme_dir,
                    subdirs,
                    shorter,
                ),
                None => probes.len() == 4 * subdirs.len(),
            }
        }),
{
    let own = subdir_probes(theme_dir, subdirs, name, 0);
    let rest = shorter_probes(theme_dir, subdirs, name);
    let probes = name_probes(theme_dir, subdirs, name);
    directories_are_asked_from(theme_dir, subdirs, name, 0, i);
    text::rfind_at_is_last(name, '-', name.len() as int);
    assert(probes.skip(own.len() as int) =~= rest);
    if shortened(name) is None {
        assert(rest.len() == 0);
    }
}

proof fn directories_are_asked_from(
    theme_dir: Seq<char>,
    subdirs: Seq<Seq<char>>,
    name: Seq<char>,
    from: int,
    i: int,
)
    requires
        0 <= from <= subdirs.len(),
    ensures
        subdir_probes(theme_dir, subdirs, name, from).len() == 4 * (subdirs.len() - from),
        from <= i < subdirs.len() ==> {
            let probes = subdir_probes(theme_dir, subdirs, name, from);
            let asked = format_probes(joined(joined(theme_dir, subdirs[i]), name));
            &&& probes[4 * (i - from)] == asked[0]
            &&& probes[4 * (i - from) + 1] == asked[1]
            &&& probes[4 * (i - from) + 2] == asked[2]
            &&& probes[4 * (i - from) + 3] == asked[3]
        },
    decreases subdirs.len() - from,
{
    if from < subdirs.len() {
        directories_are_asked_from(theme_dir, subdirs, name, from + 1, i);
        let first = format_probes(joined(joined(theme_dir, subdirs[from]), name));
        let rest = subdir_probes(theme_dir, subdirs, name, from + 1);
        let all = subdir_probes(theme_dir, subdirs, name, from);
        assert(all == first + rest);
        if from < i < subdirs.len() {
            let at = 4 * (i - from - 1);
            assert(all[at + 4] == rest[at]);
            assert(all[at + 5] == rest[at + 1]);
            assert(all[at + 6] == rest[at + 2]);
            assert(all[at + 7] == rest[at + 3]);
        }
    }
}

/// Whether a text can be the name of a file on its own.
pub open spec fn is_plain(name: Seq<char>) -> bool {
    name.len() > 0 && !name.contains('/') && !name.contains('.')
}

/// A file below a directory gets its extension behind its name, and an extension that it has gives
/// way to another.
pub proof fn extensions_are_set(
    dir: Seq<char>,
    name: Seq<char>,
    had: Seq<char>,
    extension: Seq<char>,
)
    requires
        is_plain(name),
        is_plain(had),
    ensures
        with_extension(joined(dir, name), extension) == joined(dir, name) + "."@ + extension,
        with_extension(joined(dir, name + "."@ + had), extension) == joined(dir, name) + "."@
            + extension,
        file_name_of(joined(dir, name)) == Some(name),
{
    reveal_strlit(".");
    reveal_strlit("..");
    reveal_strlit("/");
    let start = if dir.len() == 0 || dir.last() == '/' {
        dir
    } else {
        dir + "/"@
    };
    assert(name[0] != '/') by {
        assert(name.contains(name[0]));
    }
    let whole = name + "."@ + had;
    assert(whole[0] == name[0]);
    assert(joined(dir, name) =~= start + name);
    assert(joined(dir, whole) =~= start + whole);
    assert(whole.last() == had.last());
    assert(had.contains(had.last()));
    assert(name.contains(name.last()));
    assert(!whole.contains('/')) by {
        if whole.contains('/') {
            let k = choose|k: int| 0 <= k < whole.len() && whole[k] == '/';
            if k < name.len() {
                assert(name.contains(name[k]));
            } else if k > name.len() {
                assert(had[k - name.len() - 1] == whole[k]);
                assert(had.contains(had[k - name.len() - 1]));
            }
        }
    }
    component_is_last(start, name);
    component_is_last(start, whole);
    text::rfind_at_is_last(name, '.', name.len() as int);
    if text::rfind(name, '.') >= 0 {
        assert(name.contains(name[text::rfind(name, '.')]));
    }
    text::rfind_at_is_last(whole, '.', whole.len() as int);
    let dot = text::rfind(whole, '.');
    assert(whole[name.len() as int] == '.');
    assert(dot == name.len()) by {
        if dot > name.len() {
            assert(had[dot - name.len() - 1] == whole[dot]);
            assert(had.contains(had[dot - name.len() - 1]));
        }
    }
    assert(whole.take(dot) =~= name);
    if name.len() <= 2 {
        assert(name.contains(name[0]));
    }
    assert(name != "."@);
    assert(name != ".."@);
    assert(whole != "."@ && whole != ".."@) by {
        assert(name.contains(name[0]));
        assert(whole[0] != '.');
    }
    assert(start + name + "."@ + extension =~= joined(dir, name) + "."@ + extension);
}

proof fn component_is_last(start: Seq<char>, name: Seq<char>)
    requires
        name.len() > 0,
        !name.contains('/'),
        name.last() != '.',
        start.len() == 0 || start.last() == '/',
    ensures
        bare(start + name) == start + name,
        text::rfind(start + name, '/') == start.len() - 1,
        last_component(start + name) == name,
        (start + name).take(text::rfind(start + name, '/') + 1) == start,
{
    let path = start + name;
    assert(path.last() == name.last());
    assert(name.contains(name.last()));
    text::rfind_at_is_last(path, '/', path.len() as int);
    let slash = text::rfind(path, '/');
    if start.len() > 0 {
        assert(path[start.len() - 1] == '/');
    }
    if slash >= start.len() {
        assert(name[slash - start.len()] == path[slash]);
        assert(name.contains(name[slash - start.len()]));
    }
    assert(path.skip(start.len() as int) =~= name);
    assert(path.take(start.len() as int) =~= start);
}

/// The directories in two lists add up, and one that has a name is searched below its `sounds`.
pub proof fn directories_add_up(a: Seq<Seq<char>>, b: Seq<Seq<char>>)
    ensures
        sound_dirs(a + b) == sound_dirs(a) + sound_dirs(b),
        a.len() == 1 ==> sound_dirs(a) == (if a[0].len() > 0 {
            seq![joined(a[0], "sounds"@)]
        } else {
            Seq::empty()
        }),
    decreases b.len(),
{
    if a.len() == 1 {
        assert(a.drop_last().len() == 0);
        assert(sound_dirs(a.drop_last()) =~= Seq::empty());
        assert(Seq::<Seq<char>>::empty().push(joined(a[0], "sounds"@)) =~= seq![
            joined(a[0], "sounds"@),
        ]);
    }
    if b.len() == 0 {
        assert(a + b =~= a);
        assert(sound_dirs(a) + sound_dirs(b) =~= sound_dirs(a));
    } else {
        directories_add_up(a, b.drop_last());
        assert((a + b).drop_last() =~= a + b.drop_last());
        assert(sound_dirs(a + b) =~= sound_dirs(a) + sound_dirs(b));
    }
}

/// What one of the directories that are searched has of a theme.
pub open spec fn has_of(
    dir: SearchDir,
    files: Seq<Seq<char>>, event: Seq<char>,
    theme: Seq<char>,
) -> Lookup {
    match theme_at(dir.themes@, theme, 0) {
        Some(at) => first_hit(
            probes_of(joined(dir.path@, theme), dir.themes@[at].index@, event),
            files,
            0,
        ),
        None => Lookup::Missing,
    }
}

/// The first of the directories that has anything of a theme decides what the theme gives. A theme
/// that none has anything of gives nothing.
pub proof fn the_first_directory_decides(
    dirs: Seq<SearchDir>,
    files: Seq<Seq<char>>, event: Seq<char>,
    theme: Seq<char>,
    k: int,
)
    ensures
        0 <= k < dirs.len() && !(has_of(dirs[k], files, event, theme) is Missing) && (forall|m: int|
            0 <= m < k ==> has_of(#[trigger] dirs[m], files, event, theme) is Missing) ==> searched(
            dirs,
            files, event,
            theme,
            dirs.len() as int,
        ).found == has_of(dirs[k], files, event, theme),
        (forall|m: int|
            0 <= m < dirs.len() ==> has_of(#[trigger] dirs[m], files, event, theme) is Missing)
            ==> searched(dirs, files, event, theme, dirs.len() as int).found is Missing,
{
    if 0 <= k < dirs.len() && !(has_of(dirs[k], files, event, theme) is Missing) && forall|m: int|
        0 <= m < k ==> has_of(#[trigger] dirs[m], files, event, theme) is Missing {
        nothing_before(dirs, files, event, theme, k);
        assert(searched(dirs, files, event, theme, k + 1).found == has_of(
            dirs[k],
            files,
            event,
            theme,
        ));
        found_stays(dirs, files, event, theme, k + 1, dirs.len() as int);
    }
    if forall|m: int|
        0 <= m < dirs.len() ==> has_of(#[trigger] dirs[m], files, event, theme) is Missing {
        nothing_before(dirs, files, event, theme, dirs.len() as int);
    }
}

proof fn nothing_before(
    dirs: Seq<SearchDir>,
    files: Seq<Seq<char>>, event: Seq<char>,
    theme: Seq<char>,
    n: int,
)
    requires
        0 <= n <= dirs.len(),
        forall|m: int| 0 <= m < n ==> has_of(#[trigger] dirs[m], files, event, theme) is Missing,
    ensures
        searched(dirs, files, event, theme, n).found is Missing,
    decreases n,
{
    if n > 0 {
        nothing_before(dirs, files, event, theme, n - 1);
        assert(has_of(dirs[n - 1], files, event, theme) is Missing);
    }
}

/// What a lookup says of the sound.
pub open spec fn sound_in(found: Lookup) -> Option<Seq<char>> {
    match found {
        Lookup::Found(path) => Some(path),
        _ => None,
    }
}

/// A theme's own sound, or its own mark that the sound is off, comes before any other theme's. A theme
/// that has neither, and inherits from no other, gives what the fallback theme has.
pub proof fn own_sounds_come_first(
    dirs: Seq<SearchDir>,
    files: Seq<Seq<char>>, event: Seq<char>,
    theme: Seq<char>,
)
    ensures
        ({
            let own = searched(dirs, files, event, theme, dirs.len() as int);
            let fallback = searched(dirs, files, event, FALLBACK_THEME@, dirs.len() as int);
            &&& !(own.found is Missing) ==> sound_of(dirs, files, event, theme) == sound_in(
                own.found,
            )
            &&& own.found is Missing && own.parents.len() == 0 && theme != FALLBACK_THEME@ && !(
            fallback.found is Missing) ==> sound_of(dirs, files, event, theme) == sound_in(
                fallback.found,
            )
        }),
{
    let all = known_themes(dirs, dirs.len() as int, theme);
    let first = known_themes(dirs, 0, theme);
    assert(first[0] == theme);
    assert(first[1] == FALLBACK_THEME@);
    assert(first.contains(theme));
    assert(first.contains(FALLBACK_THEME@));
    known_grows(dirs, 0, dirs.len() as int, theme, theme);
    known_grows(dirs, 0, dirs.len() as int, theme, FALLBACK_THEME@);
    let own = searched(dirs, files, event, theme, dirs.len() as int);
    let none = Seq::<Seq<char>>::empty();
    let queue = seq![theme];
    assert(queue.last() == theme);
    assert(!none.contains(theme));
    if own.found is Missing && own.parents.len() == 0 && theme != FALLBACK_THEME@ {
        let next = queued(queue.drop_last(), theme, own.parents);
        assert(next =~= seq![FALLBACK_THEME@]);
        let visited = none.push(theme);
        assert(!visited.contains(FALLBACK_THEME@));
        assert(visit(dirs, files, event, all, queue, none) == visit(
            dirs,
            files, event,
            all,
            next,
            visited,
        ));
        assert(next.last() == FALLBACK_THEME@);
    }
}

/// A theme that has nothing of its own gives what the parent that is next in turn has, if that has
/// anything.
pub proof fn parents_come_next(
    dirs: Seq<SearchDir>,
    files: Seq<Seq<char>>, event: Seq<char>,
    theme: Seq<char>,
    parent: Seq<char>,
)
    requires
        searched(dirs, files, event, theme, dirs.len() as int).found is Missing,
        searched(dirs, files, event, theme, dirs.len() as int).parents.len() > 0,
        parent == searched(dirs, files, event, theme, dirs.len() as int).parents.last(),
        parent != theme,
        !(searched(dirs, files, event, parent, dirs.len() as int).found is Missing),
    ensures
        sound_of(dirs, files, event, theme) == sound_in(
            searched(dirs, files, event, parent, dirs.len() as int).found,
        ),
{
    let all = known_themes(dirs, dirs.len() as int, theme);
    let first = known_themes(dirs, 0, theme);
    assert(first[0] == theme);
    assert(first.contains(theme));
    known_grows(dirs, 0, dirs.len() as int, theme, theme);
    parents_are_known(dirs, files, event, theme, dirs.len() as int, theme);
    let own = searched(dirs, files, event, theme, dirs.len() as int);
    let k = own.parents.len() - 1;
    assert(all.contains(own.parents[k]));
    let none = Seq::<Seq<char>>::empty();
    let queue = seq![theme];
    assert(queue.last() == theme);
    assert(!none.contains(theme));
    let next = queued(queue.drop_last(), theme, own.parents);
    let visited = none.push(theme);
    assert(next.last() == parent);
    assert(!visited.contains(parent));
    assert(visit(dirs, files, event, all, queue, none) == visit(
        dirs,
        files, event,
        all,
        next,
        visited,
    ));
}

/// The directories and the parents that a theme's index lists are read from its theme group: the
/// pieces of each list, however many lines list them.
pub proof fn listed_names_are_read(before: Seq<Seq<char>>, values: Seq<char>)
    requires
        values.len() > 0,
        !text::is_white(values.last()),
        index_of(before).in_theme_group,
    ensures
        index_of(before.push("Directories="@ + values)).subdirs == index_of(before).subdirs
            + compose::nonblank(text::split(values, ',')),
        index_of(before.push("Inherits="@ + values)).inherits == index_of(before).inherits
            + compose::nonblank(text::split(values, ',')),
        index_of(before.push("[Sound Theme]"@)).in_theme_group,
        index_of(before.push("[Sound Theme]"@)).subdirs == index_of(before).subdirs,
{
    reveal_strlit("Directories=");
    reveal_strlit("Directories");
    reveal_strlit("Inherits=");
    reveal_strlit("Inherits");
    reveal_strlit("[Sound Theme]");
    assert("Directories="@ =~= "Directories"@ + seq!['=']);
    assert("Inherits="@ =~= "Inherits"@ + seq!['=']);
    entry_is_read(before, "Directories"@, values);
    entry_is_read(before, "Inherits"@, values);
    assert("Directories"@ + seq!['='] + values =~= "Directories="@ + values);
    assert("Inherits"@ + seq!['='] + values =~= "Inherits="@ + values);
    assert("Inherits"@ != "Directories"@) by {
        assert("Inherits"@.len() != "Directories"@.len());
    }
    let group = before.push("[Sound Theme]"@);
    assert(group.drop_last() =~= before);
    text::white_around_is_trimmed(Seq::empty(), "[Sound Theme]"@, Seq::empty());
    ends_are_kept("[Sound Theme]"@);
}

proof fn ends_are_kept(s: Seq<char>)
    requires
        s.len() > 0,
        !text::is_white(s[0]),
        !text::is_white(s.last()),
    ensures
        text::trim(s) == s,
{
    assert(text::lead_end(s, 0) == 0);
    assert(text::tail_start(s, 0, s.len() as int) == s.len());
    assert(s.subrange(0, s.len() as int) =~= s);
}

proof fn entry_is_read(before: Seq<Seq<char>>, key: Seq<char>, values: Seq<char>)
    requires
        key.len() > 0,
        key[0] != '[',
        !text::is_white(key[0]),
        !text::is_white(key.last()),
        !key.contains('='),
        values.len() > 0,
        !text::is_white(values.last()),
    ensures
        ({
            let line = key + seq!['='] + values;
            let all = before.push(line);
            &&& all.drop_last() == before
            &&& all.last() == line
            &&& text::trim(line) == line
            &&& line[0] != '['
            &&& text::find(line, '=') == key.len()
            &&& text::trim(line.take(key.len() as int)) == key
            &&& line.skip(key.len() as int + 1) == values
        }),
{
    let line = key + seq!['='] + values;
    let all = before.push(line);
    assert(all.drop_last() =~= before);
    assert(line[0] == key[0]);
    assert(line.last() == values.last());
    ends_are_kept(line);
    ends_are_kept(key);
    text::find_at_is_first(line, '=', 0);
    let f = text::find(line, '=');
    assert(line[key.len() as int] == '=');
    if f < key.len() {
        assert(key[f] == line[f]);
        assert(key.contains(key[f]));
    }
    assert(line.take(key.len() as int) =~= key);
    assert(line.skip(key.len() as int + 1) =~= values);
}

/// The parents of a theme are visited in the order that its index lists them in.
pub proof fn parents_keep_their_order(
    dir: SearchDir,
    files: Seq<Seq<char>>, event: Seq<char>,
    theme: Seq<char>,
    at: int,
    i: int,
)
    requires
        theme_at(dir.themes@, theme, 0) == Some(at),
        0 <= i < parents_of(dir.themes@[at]).len(),
    ensures
        ({
            let parents = searched(seq![dir], files, event, theme, 1).parents;
            &&& parents.len() == parents_of(dir.themes@[at]).len()
            &&& parents[parents.len() - 1 - i] == parents_of(dir.themes@[at])[i]
        }),
{
    let dirs = seq![dir];
    assert(dirs[0] == dir);
    assert(searched(dirs, files, event, theme, 0).parents.len() == 0);
    assert(searched(dirs, files, event, theme, 0).found is Missing);
}

} // verus!
