//! Plan one packaging task per output file.
//!
//! Id-driven: walk the valid songs (optionally only the selected versions), locate each song's on-disk input by its
//! 5-digit id under the sound roots, and emit a task with its output path. A song is either a loose folder
//! `<root>/<id5>/` (gen 30+) or a packed `<root>/<id5>.ifs` (gen < 30). Omnimix-revived songs look under the omnimix
//! sound root first. What the filesystem holds is handed in as probes, gathered by the caller.

use vstd::prelude::*;
use vstd::string::StrSliceExecFns;
use vstd::string::StringExecFns;
use vstd::pervasive::VecAdditionalExecFns;
use crate::common::{
    empty_music_view, music_views, MusicInfo, MusicView, PackTask, PackTaskView, SongInput, SongInputView, spec_version_folder_name,
    version_folder_name,
};
use crate::text::{
    all_digits, decimal_value, lemma_decimal_value,
    decimal_chars, zero_pad, zero_padded,
    chars_lt, has_prefix, has_suffix, join_path, lemma_chars_lt_total_order, push_char, spec_join_path, str_eq,
    str_ends_with, str_lt, str_starts_with,
};

verus! {

// ---- incremental support ----------------------------------------------------------------------------------------

/// The tasks whose flag in `present` is false, in the order they had.
pub open spec fn keep_absent<T>(tasks: Seq<T>, present: Seq<bool>) -> Seq<T>
    decreases tasks.len(),
{
    if tasks.len() == 0 {
        Seq::empty()
    } else {
        let rest = keep_absent(tasks.drop_last(), present.take(tasks.len() - 1));
        if present[tasks.len() - 1] {
            rest
        } else {
            rest.push(tasks.last())
        }
    }
}

/// An empty task, used to move tasks out of a vector.
fn placeholder_task() -> (t: PackTask)
    ensures
        t@ == (PackTaskView {
            info: empty_music_view(),
            input: SongInputView::Packed(Seq::empty()),
            dst_path: Seq::empty(),
        }),
{
    PackTask { info: MusicInfo::empty(), input: SongInput::Packed(String::new()), dst_path: String::new() }
}

/// Drop the tasks whose output already exists (`present[i]` tells whether task `i`'s output is on disk), keeping the
/// others in order.
pub fn filter_existing(vec_task: &mut Vec<PackTask>, present: &[bool])
    requires
        present@.len() == old(vec_task)@.len(),
    ensures
        final(vec_task)@ == keep_absent(old(vec_task)@, present@),
{
    let mut all: Vec<PackTask> = Vec::new();
    std::mem::swap(vec_task, &mut all);
    let ghost orig = all@;
    let n = all.len();
    let mut kept: Vec<PackTask> = Vec::new();
    let mut i: usize = 0;
    while i < n
        invariant
            n == orig.len(),
            n == present@.len(),
            all@.len() == n,
            i <= n,
            forall|j: int| i <= j < n ==> #[trigger] all@[j] == orig[j],
            kept@ == keep_absent(orig.take(i as int), present@.take(i as int)),
        decreases n - i,
    {
        assert(orig.take(i + 1).drop_last() =~= orig.take(i as int));
        assert(present@.take(i + 1).take(i as int) =~= present@.take(i as int));
        if !present[i] {
            let mut t = placeholder_task();
            all.set_and_swap(i, &mut t);
            kept.push(t);
        }
        i += 1;
    }
    assert(orig.take(n as int) =~= orig);
    assert(present@.take(n as int) =~= present@);
    *vec_task = kept;
}

// ---- output paths -----------------------------------------------------------------------------------------------

/// A character Windows does not allow in file names.
pub open spec fn is_illegal_in_filename(c: char) -> bool {
    c == '\\' || c == '/' || c == ':' || c == '*' || c == '?' || c == '"' || c == '<' || c == '>' || c == '|'
}

/// `title` with every character illegal in a file name replaced by '_'.
pub open spec fn spec_sanitize(title: Seq<char>) -> Seq<char> {
    Seq::new(title.len(), |i: int| if is_illegal_in_filename(title[i]) { '_' } else { title[i] })
}

/// Replace the characters illegal in Windows file names with '_'.
pub fn sanitize_filename(str_title: &str) -> (s: String)
    ensures
        s@ == spec_sanitize(str_title@),
{
    let n = str_title.unicode_len();
    let mut s = String::new();
    let mut i: usize = 0;
    while i < n
        invariant
            n == str_title@.len(),
            i <= n,
            s@ =~= spec_sanitize(str_title@).take(i as int),
        decreases n - i,
    {
        let c = str_title.get_char(i);
        let d = if c == '\\' || c == '/' || c == ':' || c == '*' || c == '?' || c == '"' || c == '<' || c == '>'
            || c == '|' {
            '_'
        } else {
            c
        };
        push_char(&mut s, d);
        i += 1;
    }
    s
}

/// Law: a sanitized title keeps its length and holds no character illegal in a file name.
pub proof fn lemma_sanitized_is_legal(title: Seq<char>)
    ensures
        spec_sanitize(title).len() == title.len(),
        forall|i: int| 0 <= i < title.len() ==> !is_illegal_in_filename(#[trigger] spec_sanitize(title)[i]),
        forall|i: int|
            0 <= i < title.len() && !is_illegal_in_filename(title[i]) ==> #[trigger] spec_sanitize(title)[i]
                == title[i],
{
}

/// The output path of a song: `<out>/<version folder>/<sanitized title>.opus`, joined with separator `sep`.
pub open spec fn spec_build_dst(path_out: Seq<char>, version: u8, title: Seq<char>, sep: char) -> Seq<char> {
    spec_join_path(
        spec_join_path(path_out, spec_version_folder_name(version), sep),
        spec_sanitize(title) + ".opus"@,
        sep,
    )
}

/// Destination path: `<out>/<version folder>/<sanitized title>.opus`, joined with the platform's separator `sep`.
pub fn build_dst(path_out: &str, version: u8, str_title: &str, sep: char) -> (p: String)
    ensures
        p@ == spec_build_dst(path_out@, version, str_title@, sep),
{
    let dir = join_path(path_out, version_folder_name(version), sep);
    let mut name = sanitize_filename(str_title);
    name.append(".opus");
    join_path(dir.as_str(), name.as_str(), sep)
}

// ---- choosing the audio file of a loose folder ------------------------------------------------------------------

/// The views of a list of names.
pub open spec fn names_view(names: Seq<String>) -> Seq<Seq<char>> {
    names.map_values(|n: String| n@)
}

/// A main `.2dx` of song `id5`: named `<id5>*.2dx`, and not the `<id5>_pre.2dx` preview.
pub open spec fn is_2dx_candidate(name: Seq<char>, id5: Seq<char>) -> bool {
    &&& has_prefix(name, id5)
    &&& has_suffix(name, ".2dx"@)
    &&& name != id5 + "_pre.2dx"@
}

/// The main `.2dx` names among `names`, in order.
pub open spec fn candidates_2dx(names: Seq<Seq<char>>, id5: Seq<char>) -> Seq<Seq<char>>
    decreases names.len(),
{
    if names.len() == 0 {
        Seq::empty()
    } else {
        let rest = candidates_2dx(names.drop_last(), id5);
        if is_2dx_candidate(names.last(), id5) {
            rest.push(names.last())
        } else {
            rest
        }
    }
}

/// The least name of a non-empty list in code-point order (the first after sorting).
pub open spec fn least_name(names: Seq<Seq<char>>) -> Seq<char>
    decreases names.len(),
{
    if names.len() <= 1 {
        names[0]
    } else {
        let m = least_name(names.drop_last());
        if chars_lt(names.last(), m) {
            names.last()
        } else {
            m
        }
    }
}

/// Law: the least name is one of the names, and no name sorts before it.
pub proof fn lemma_least_name(names: Seq<Seq<char>>)
    requires
        names.len() >= 1,
    ensures
        names.contains(least_name(names)),
        forall|i: int| 0 <= i < names.len() ==> !chars_lt(#[trigger] names[i], least_name(names)),
    decreases names.len(),
{
    if names.len() == 1 {
        assert(names[0] == least_name(names));
        lemma_chars_lt_total_order(names[0], names[0], names[0]);
    } else {
        let prefix = names.drop_last();
        lemma_least_name(prefix);
        let m = least_name(prefix);
        let l = names.last();
        assert forall|i: int| 0 <= i < names.len() implies !chars_lt(#[trigger] names[i], least_name(names)) by {
            if i < names.len() - 1 {
                assert(prefix[i] == names[i]);
                lemma_chars_lt_total_order(names[i], l, m);
                lemma_chars_lt_total_order(l, m, names[i]);
                lemma_chars_lt_total_order(names[i], m, l);
            } else {
                lemma_chars_lt_total_order(l, m, l);
            }
        }
        if chars_lt(l, m) {
            assert(names[names.len() - 1] == l);
        } else {
            let k = choose|k: int| 0 <= k < prefix.len() && prefix[k] == m;
            assert(names[k] == m);
        }
    }
}

/// The audio file to take from a loose folder holding `names`: among the main `.2dx` files prefer `<id5>a.2dx`, then
/// `<id5>1.2dx`, then `<id5>.2dx`, else the first by name; `None` when the folder has no main `.2dx`.
pub open spec fn spec_pick_2dx(id5: Seq<char>, names: Seq<Seq<char>>) -> Option<Seq<char>> {
    let c = candidates_2dx(names, id5);
    if c.len() == 0 {
        None
    } else if c.contains(id5 + "a.2dx"@) {
        Some(id5 + "a.2dx"@)
    } else if c.contains(id5 + "1.2dx"@) {
        Some(id5 + "1.2dx"@)
    } else if c.contains(id5 + ".2dx"@) {
        Some(id5 + ".2dx"@)
    } else {
        Some(least_name(c))
    }
}

proof fn lemma_candidates_2dx(names: Seq<Seq<char>>, id5: Seq<char>, x: Seq<char>)
    ensures
        candidates_2dx(names, id5).contains(x) <==> names.contains(x) && is_2dx_candidate(x, id5),
        forall|i: int|
            0 <= i < candidates_2dx(names, id5).len() ==> is_2dx_candidate(
                #[trigger] candidates_2dx(names, id5)[i],
                id5,
            ),
    decreases names.len(),
{
    if names.len() > 0 {
        let prefix = names.drop_last();
        lemma_candidates_2dx(prefix, id5, x);
        let rest = candidates_2dx(prefix, id5);
        if names.contains(x) && !prefix.contains(x) {
            let k = choose|k: int| 0 <= k < names.len() && names[k] == x;
            if k < names.len() - 1 {
                assert(prefix[k] == x);
            }
        }
        if prefix.contains(x) {
            let k = choose|k: int| 0 <= k < prefix.len() && prefix[k] == x;
            assert(names[k] == x);
        }
        if is_2dx_candidate(names.last(), id5) {
            assert(rest.push(names.last())[rest.len() as int] == names.last());
            if rest.contains(x) {
                let k = choose|k: int| 0 <= k < rest.len() && rest[k] == x;
                assert(rest.push(names.last())[k] == x);
            }
            if rest.push(names.last()).contains(x) && x != names.last() {
                let k = choose|k: int| 0 <= k < rest.len() + 1 && rest.push(names.last())[k] == x;
                assert(rest[k] == x);
            }
        }
    }
}

proof fn lemma_named_variant_is_candidate(id5: Seq<char>, tag: Seq<char>)
    requires
        tag == "a"@ || tag == "1"@ || tag == ""@,
    ensures
        is_2dx_candidate(id5 + tag + ".2dx"@, id5),
        id5 + tag + ".2dx"@ == id5 + (tag + ".2dx"@),
{
    reveal_strlit("a");
    reveal_strlit("1");
    reveal_strlit("");
    reveal_strlit(".2dx");
    reveal_strlit("_pre.2dx");
    let n = id5 + tag + ".2dx"@;
    assert(n =~= id5 + (tag + ".2dx"@));
    assert(n.subrange(0, id5.len() as int) =~= id5);
    assert(n.subrange(n.len() - 4, n.len() as int) =~= ".2dx"@);
    let pre = id5 + "_pre.2dx"@;
    if n == pre {
        if tag.len() == 0 {
            assert(n.len() != pre.len());
        } else {
            assert(n[id5.len() as int] == tag[0]);
            assert(pre[id5.len() as int] == '_');
        }
    }
}

/// Law: the chosen audio file is a main `.2dx` of the folder listing (named `<id5>*.2dx`, not the `_pre` preview), and
/// there is one exactly when the listing holds such a file. `<id5>a.2dx` wins whenever it is there, then
/// `<id5>1.2dx`, then `<id5>.2dx`; otherwise no main `.2dx` of the listing sorts before the chosen one.
pub proof fn lemma_pick_2dx(id5: Seq<char>, names: Seq<Seq<char>>)
    ensures
        spec_pick_2dx(id5, names) matches Some(n) ==> names.contains(n) && is_2dx_candidate(n, id5),
        spec_pick_2dx(id5, names) is None <==> forall|i: int|
            0 <= i < names.len() ==> !is_2dx_candidate(#[trigger] names[i], id5),
        names.contains(id5 + "a.2dx"@) ==> spec_pick_2dx(id5, names) == Some(id5 + "a.2dx"@),
        !names.contains(id5 + "a.2dx"@) && names.contains(id5 + "1.2dx"@) ==> spec_pick_2dx(id5, names) == Some(
            id5 + "1.2dx"@,
        ),
        !names.contains(id5 + "a.2dx"@) && !names.contains(id5 + "1.2dx"@) && names.contains(id5 + ".2dx"@)
            ==> spec_pick_2dx(id5, names) == Some(id5 + ".2dx"@),
        !names.contains(id5 + "a.2dx"@) && !names.contains(id5 + "1.2dx"@) && !names.contains(id5 + ".2dx"@)
            ==> (spec_pick_2dx(id5, names) matches Some(n) ==> forall|i: int|
            0 <= i < names.len() && is_2dx_candidate(#[trigger] names[i], id5) ==> !chars_lt(names[i], n)),
{
    reveal_strlit("a");
    reveal_strlit("1");
    reveal_strlit("");
    let c = candidates_2dx(names, id5);
    lemma_named_variant_is_candidate(id5, "a"@);
    lemma_named_variant_is_candidate(id5, "1"@);
    lemma_named_variant_is_candidate(id5, ""@);
    assert(id5 + ""@ =~= id5);
    assert(""@ + ".2dx"@ =~= ".2dx"@);
    reveal_strlit("a.2dx");
    reveal_strlit("1.2dx");
    reveal_strlit(".2dx");
    assert("a"@ + ".2dx"@ =~= "a.2dx"@);
    assert("1"@ + ".2dx"@ =~= "1.2dx"@);
    lemma_candidates_2dx(names, id5, id5 + "a.2dx"@);
    lemma_candidates_2dx(names, id5, id5 + "1.2dx"@);
    lemma_candidates_2dx(names, id5, id5 + ".2dx"@);
    if let Some(n) = spec_pick_2dx(id5, names) {
        lemma_candidates_2dx(names, id5, n);
        if c.len() > 0 && !c.contains(id5 + "a.2dx"@) && !c.contains(id5 + "1.2dx"@) && !c.contains(id5 + ".2dx"@) {
            lemma_least_name(c);
            assert forall|i: int| 0 <= i < names.len() && is_2dx_candidate(#[trigger] names[i], id5) implies !chars_lt(
                names[i],
                n,
            ) by {
                lemma_candidates_2dx(names, id5, names[i]);
                assert(names.contains(names[i]));
                let k = choose|k: int| 0 <= k < c.len() && c[k] == names[i];
                assert(!chars_lt(c[k], least_name(c)));
            }
        }
    }
    if c.len() == 0 {
        assert forall|i: int| 0 <= i < names.len() implies !is_2dx_candidate(#[trigger] names[i], id5) by {
            lemma_candidates_2dx(names, id5, names[i]);
            assert(names.contains(names[i]));
        }
    } else {
        assert(c.contains(c[0]));
        lemma_candidates_2dx(names, id5, c[0]);
        let k = choose|k: int| 0 <= k < names.len() && names[k] == c[0];
        assert(is_2dx_candidate(names[k], id5));
    }
}

/// `<id5>` followed by `suffix`.
fn id5_with(str_id5: &str, suffix: &str) -> (s: String)
    ensures
        s@ == str_id5@ + suffix@,
{
    let mut s = String::from_str(str_id5);
    s.append(suffix);
    s
}

/// Whether `names` holds `wanted`.
fn contains_name(names: &Vec<String>, wanted: &str) -> (r: bool)
    ensures
        r == names_view(names@).contains(wanted@),
{
    let mut i: usize = 0;
    while i < names.len()
        invariant
            i <= names@.len(),
            forall|k: int| 0 <= k < i ==> names@[k]@ != wanted@,
        decreases names@.len() - i,
    {
        if str_eq(names[i].as_str(), wanted) {
            assert(names_view(names@)[i as int] == wanted@);
            return true;
        }
        i += 1;
    }
    assert forall|k: int| 0 <= k < names_view(names@).len() implies names_view(names@)[k] != wanted@ by {
        assert(names_view(names@)[k] == names@[k]@);
    }
    false
}

/// Pick the audio file of a loose folder from the names of its files: among the main `.2dx` files (`<id5>*.2dx`, not
/// the `_pre` preview) prefer `<id5>a`, then `<id5>1`, then `<id5>`, else the first by name. `None` when the folder
/// has no main `.2dx`.
pub fn pick_loose_2dx(str_id5: &str, names: &[String]) -> (r: Option<String>)
    ensures
        match r {
            Some(n) => spec_pick_2dx(str_id5@, names_view(names@)) == Some(n@),
            None => spec_pick_2dx(str_id5@, names_view(names@)) == None::<Seq<char>>,
        },
{
    let ghost all = names_view(names@);
    let pre = id5_with(str_id5, "_pre.2dx");
    let mut cands: Vec<String> = Vec::new();
    let mut i: usize = 0;
    assert(all.take(0) =~= Seq::<Seq<char>>::empty());
    while i < names.len()
        invariant
            all == names_view(names@),
            pre@ == str_id5@ + "_pre.2dx"@,
            i <= names@.len(),
            names_view(cands@) =~= candidates_2dx(all.take(i as int), str_id5@),
        decreases names@.len() - i,
    {
        assert(all.take(i + 1).drop_last() =~= all.take(i as int));
        assert(all[i as int] == names@[i as int]@);
        let n = names[i].as_str();
        if str_starts_with(n, str_id5) && str_ends_with(n, ".2dx") && !str_eq(n, pre.as_str()) {
            let copy = String::from_str(n);
            cands.push(copy);
        }
        i += 1;
    }
    assert(all.take(i as int) =~= all);
    let ghost c = names_view(cands@);
    if cands.len() == 0 {
        return None;
    }
    let wanted_a = id5_with(str_id5, "a.2dx");
    if contains_name(&cands, wanted_a.as_str()) {
        return Some(wanted_a);
    }
    let wanted_1 = id5_with(str_id5, "1.2dx");
    if contains_name(&cands, wanted_1.as_str()) {
        return Some(wanted_1);
    }
    let wanted_0 = id5_with(str_id5, ".2dx");
    if contains_name(&cands, wanted_0.as_str()) {
        return Some(wanted_0);
    }
    let mut best: usize = 0;
    let mut k: usize = 1;
    while k < cands.len()
        invariant
            c == names_view(cands@),
            1 <= k <= cands@.len(),
            best < k,
            cands@[best as int]@ == least_name(c.take(k as int)),
        decreases cands@.len() - k,
    {
        assert(c.take(k + 1).drop_last() =~= c.take(k as int));
        if str_lt(cands[k].as_str(), cands[best].as_str()) {
            best = k;
        }
        k += 1;
    }
    assert(c.take(k as int) =~= c);
    Some(String::from_str(cands[best].as_str()))
}

// ---- locating a song's input ------------------------------------------------------------------------------------

/// The paths probed for one song under one sound root.
pub struct ProbePaths {
    /// `<root>/<id5>`: the loose folder
    pub dir: String,
    /// `<root>/<id5>/<id5>.1`: the chart in the loose folder
    pub chart: String,
    /// `<root>/<id5>/<id5>.s3p`: the keysound archive in the loose folder
    pub s3p: String,
    /// `<root>/<id5>/<id5>.ifs`: a packed archive inside the folder
    pub ifs_in_dir: String,
    /// `<root>/<id5>.ifs`: the packed archive next to the folders
    pub ifs: String,
}

pub open spec fn spec_song_dir(root: Seq<char>, id5: Seq<char>, sep: char) -> Seq<char> {
    spec_join_path(root, id5, sep)
}

pub open spec fn spec_chart_path(root: Seq<char>, id5: Seq<char>, sep: char) -> Seq<char> {
    spec_join_path(spec_song_dir(root, id5, sep), id5 + ".1"@, sep)
}

pub open spec fn spec_s3p_path(root: Seq<char>, id5: Seq<char>, sep: char) -> Seq<char> {
    spec_join_path(spec_song_dir(root, id5, sep), id5 + ".s3p"@, sep)
}

pub open spec fn spec_ifs_in_dir_path(root: Seq<char>, id5: Seq<char>, sep: char) -> Seq<char> {
    spec_join_path(spec_song_dir(root, id5, sep), id5 + ".ifs"@, sep)
}

pub open spec fn spec_ifs_path(root: Seq<char>, id5: Seq<char>, sep: char) -> Seq<char> {
    spec_join_path(root, id5 + ".ifs"@, sep)
}

/// The paths to probe for song `<id5>` under `root`, joined with the platform's separator `sep`.
pub fn probe_paths(root: &str, str_id5: &str, sep: char) -> (p: ProbePaths)
    ensures
        p.dir@ == spec_song_dir(root@, str_id5@, sep),
        p.chart@ == spec_chart_path(root@, str_id5@, sep),
        p.s3p@ == spec_s3p_path(root@, str_id5@, sep),
        p.ifs_in_dir@ == spec_ifs_in_dir_path(root@, str_id5@, sep),
        p.ifs@ == spec_ifs_path(root@, str_id5@, sep),
{
    let dir = join_path(root, str_id5, sep);
    let chart = join_path(dir.as_str(), id5_with(str_id5, ".1").as_str(), sep);
    let s3p = join_path(dir.as_str(), id5_with(str_id5, ".s3p").as_str(), sep);
    let ifs_in_dir = join_path(dir.as_str(), id5_with(str_id5, ".ifs").as_str(), sep);
    let ifs = join_path(root, id5_with(str_id5, ".ifs").as_str(), sep);
    ProbePaths { dir, chart, s3p, ifs_in_dir, ifs }
}

/// What the filesystem shows at the [`ProbePaths`] of one song under one sound root.
pub struct RootProbe {
    /// the loose folder is a directory
    pub dir_exists: bool,
    /// the chart is a file
    pub chart_exists: bool,
    /// the keysound archive is a file
    pub s3p_exists: bool,
    /// the names of the entries of the loose folder (empty when it is not a directory)
    pub dir_names: Vec<String>,
    /// the packed archive inside the folder is a file
    pub ifs_in_dir_exists: bool,
    /// the packed archive next to the folders is a file
    pub ifs_exists: bool,
}

/// The content of a [`RootProbe`].
pub struct RootProbeView {
    pub dir_exists: bool,
    pub chart_exists: bool,
    pub s3p_exists: bool,
    pub dir_names: Seq<Seq<char>>,
    pub ifs_in_dir_exists: bool,
    pub ifs_exists: bool,
}

impl View for RootProbe {
    type V = RootProbeView;

    open spec fn view(&self) -> RootProbeView {
        RootProbeView {
            dir_exists: self.dir_exists,
            chart_exists: self.chart_exists,
            s3p_exists: self.s3p_exists,
            dir_names: names_view(self.dir_names@),
            ifs_in_dir_exists: self.ifs_in_dir_exists,
            ifs_exists: self.ifs_exists,
        }
    }
}

/// The views of a list of probes.
pub open spec fn probes_view(probes: Seq<RootProbe>) -> Seq<RootProbeView> {
    probes.map_values(|p: RootProbe| p@)
}

/// The input found under one root: a loose folder with a chart pairs it with the `.s3p` or a main `.2dx`; a folder
/// holding an `.ifs`, or a bare `<id5>.ifs`, is packed; `None` when none of these is there.
pub open spec fn locate_at(root: Seq<char>, id5: Seq<char>, probe: RootProbeView, sep: char) -> Option<SongInputView> {
    let dir = spec_song_dir(root, id5, sep);
    let chart = spec_chart_path(root, id5, sep);
    let loose = probe.dir_exists && probe.chart_exists;
    if loose && probe.s3p_exists {
        Some(SongInputView::Loose { audio: spec_s3p_path(root, id5, sep), chart })
    } else if loose && spec_pick_2dx(id5, probe.dir_names) is Some {
        Some(SongInputView::Loose { audio: spec_join_path(dir, spec_pick_2dx(id5, probe.dir_names)->0, sep), chart })
    } else if probe.dir_exists && probe.ifs_in_dir_exists {
        Some(SongInputView::Packed(spec_ifs_in_dir_path(root, id5, sep)))
    } else if probe.ifs_exists {
        Some(SongInputView::Packed(spec_ifs_path(root, id5, sep)))
    } else {
        None
    }
}

/// The input found under the roots from position `i` on; the first root with a hit wins.
pub open spec fn locate_from(
    roots: Seq<Seq<char>>,
    id5: Seq<char>,
    probes: Seq<RootProbeView>,
    sep: char,
    i: int,
) -> Option<
    SongInputView,
>
    decreases roots.len() - i,
{
    if i < 0 || i >= roots.len() {
        None
    } else {
        match locate_at(roots[i], id5, probes[i], sep) {
            Some(input) => Some(input),
            None => locate_from(roots, id5, probes, sep, i + 1),
        }
    }
}

/// Resolve a song's input under one root from what was probed there.
fn locate_in_root(root: &str, str_id5: &str, probe: &RootProbe, sep: char) -> (r: Option<SongInput>)
    ensures
        match r {
            Some(input) => locate_at(root@, str_id5@, probe@, sep) == Some(input@),
            None => locate_at(root@, str_id5@, probe@, sep) == None::<SongInputView>,
        },
{
    let paths = probe_paths(root, str_id5, sep);
    if probe.dir_exists && probe.chart_exists {
        if probe.s3p_exists {
            return Some(SongInput::Loose { audio: paths.s3p, chart: paths.chart });
        }
        if let Some(name) = pick_loose_2dx(str_id5, probe.dir_names.as_slice()) {
            let audio = join_path(paths.dir.as_str(), name.as_str(), sep);
            return Some(SongInput::Loose { audio, chart: paths.chart });
        }
    }
    if probe.dir_exists && probe.ifs_in_dir_exists {
        return Some(SongInput::Packed(paths.ifs_in_dir));
    }
    if probe.ifs_exists {
        return Some(SongInput::Packed(paths.ifs));
    }
    None
}

/// The views of a list of strings.
pub open spec fn strings_view(s: Seq<String>) -> Seq<Seq<char>> {
    s.map_values(|x: String| x@)
}

/// Resolve a song's on-disk input under the given roots (first hit wins), from what was probed under each root;
/// `sep` is the platform's path separator.
pub fn locate_input(roots: &[String], str_id5: &str, probes: &[RootProbe], sep: char) -> (r: Option<SongInput>)
    requires
        roots@.len() == probes@.len(),
    ensures
        match r {
            Some(input) => locate_from(strings_view(roots@), str_id5@, probes_view(probes@), sep, 0) == Some(input@),
            None => locate_from(strings_view(roots@), str_id5@, probes_view(probes@), sep, 0) == None::<SongInputView>,
        },
{
    let ghost rv = strings_view(roots@);
    let ghost pv = probes_view(probes@);
    let mut i: usize = 0;
    while i < roots.len()
        invariant
            rv == strings_view(roots@),
            pv == probes_view(probes@),
            roots@.len() == probes@.len(),
            i <= roots@.len(),
            locate_from(rv, str_id5@, pv, sep, 0) == locate_from(rv, str_id5@, pv, sep, i as int),
        decreases roots@.len() - i,
    {
        assert(rv[i as int] == roots@[i as int]@);
        assert(pv[i as int] == probes@[i as int]@);
        if let Some(input) = locate_in_root(roots[i].as_str(), str_id5, &probes[i], sep) {
            return Some(input);
        }
        i += 1;
    }
    None
}

// ---- planning every song ----------------------------------------------------------------------------------------

/// The 5-digit, zero-padded on-disk name of a song id.
pub open spec fn spec_id5(id: u32) -> Seq<char> {
    zero_pad(decimal_chars(id as nat), 5)
}

/// The on-disk name of a song: its id, zero-padded to 5 digits.
pub fn song_id5(id: u32) -> (s: String)
    ensures
        s@ == spec_id5(id),
{
    zero_padded(id as u64, 5)
}

proof fn lemma_decimal_len(n: nat)
    ensures
        decimal_chars(n).len() >= 1,
        n < 100000 ==> decimal_chars(n).len() <= 5,
        n < 10000 ==> decimal_chars(n).len() <= 4,
        n < 1000 ==> decimal_chars(n).len() <= 3,
        n < 100 ==> decimal_chars(n).len() <= 2,
        n < 10 ==> decimal_chars(n).len() == 1,
    decreases n,
{
    if n >= 10 {
        lemma_decimal_len(n / 10);
    }
}

/// Law: every song id below 100000 has a 5-character on-disk name.
pub proof fn lemma_id5_len(id: u32)
    requires
        id < 100000,
    ensures
        spec_id5(id).len() == 5,
{
    lemma_decimal_len(id as nat);
}

proof fn lemma_zeros_value(n: nat)
    ensures
        decimal_value(Seq::new(n, |_i: int| '0')) == 0,
        all_digits(Seq::new(n, |_i: int| '0')),
    decreases n,
{
    if n > 0 {
        lemma_zeros_value((n - 1) as nat);
        assert(Seq::new(n, |_i: int| '0').drop_last() =~= Seq::new((n - 1) as nat, |_i: int| '0'));
    }
}

proof fn lemma_value_after_zeros(a: Seq<char>, b: Seq<char>)
    requires
        decimal_value(a) == 0,
    ensures
        decimal_value(a + b) == decimal_value(b),
    decreases b.len(),
{
    if b.len() > 0 {
        lemma_value_after_zeros(a, b.drop_last());
        assert((a + b).drop_last() =~= a + b.drop_last());
        assert((a + b).last() == b.last());
    } else {
        assert(a + b =~= a);
    }
}

/// Law: the on-disk name of every song id below 100000 is five decimal digits denoting the id.
pub proof fn lemma_id5_digits(id: u32)
    requires
        id < 100000,
    ensures
        spec_id5(id).len() == 5,
        all_digits(spec_id5(id)),
        decimal_value(spec_id5(id)) == id,
{
    lemma_id5_len(id);
    let d = decimal_chars(id as nat);
    lemma_decimal_value(id as nat);
    if d.len() < 5 {
        let z = Seq::new((5 - d.len()) as nat, |_i: int| '0');
        lemma_zeros_value((5 - d.len()) as nat);
        lemma_value_after_zeros(z, d);
        assert forall|i: int| 0 <= i < (z + d).len() implies '0' <= #[trigger] (z + d)[i] && (z + d)[i] <= '9' by {
            if i < z.len() {
                assert((z + d)[i] == z[i]);
            } else {
                assert((z + d)[i] == d[i - z.len()]);
            }
        }
    }
}

/// Law: an omnimix song is searched under the omnimix root first and a base song under the base root first; the base
/// root is always searched, the omnimix root whenever there is one, and nothing else.
pub proof fn lemma_song_roots(is_omnimix: bool, sound: Seq<char>, omni: Option<Seq<char>>)
    ensures
        ({
            let roots = spec_song_roots(is_omnimix, sound, omni);
            &&& roots.len() == if omni is Some { 2int } else { 1int }
            &&& roots.contains(sound)
            &&& omni matches Some(o) ==> roots.contains(o)
            &&& roots[0] == if is_omnimix && omni is Some { omni->0 } else { sound }
        }),
{
    let roots = spec_song_roots(is_omnimix, sound, omni);
    match omni {
        Some(o) => {
            assert(roots[0] == sound || roots[1] == sound);
            if is_omnimix {
                assert(roots[1] == sound);
                assert(roots[0] == o);
            } else {
                assert(roots[0] == sound);
                assert(roots[1] == o);
            }
        },
        None => {
            assert(roots[0] == sound);
        },
    }
}

/// A song to convert: valid, and of one of the selected versions (an empty selection selects every version).
pub open spec fn is_selected(info: MusicView, versions: Seq<u8>) -> bool {
    info.is_valid && (versions.len() == 0 || versions.contains(info.version))
}

/// Whether a song is to be converted: valid, and of a selected version (an empty selection selects all).
pub fn song_selected(info: &MusicInfo, versions: &[u8]) -> (r: bool)
    ensures
        r == is_selected(info@, versions@),
{
    if !info.is_valid {
        return false;
    }
    if versions.len() == 0 {
        return true;
    }
    let mut i: usize = 0;
    while i < versions.len()
        invariant
            info.is_valid,
            i <= versions@.len(),
            forall|k: int| 0 <= k < i ==> versions@[k] != info.version,
        decreases versions@.len() - i,
    {
        if versions[i] == info.version {
            assert(versions@[i as int] == info.version);
            assert(versions@.contains(info@.version));
            return true;
        }
        i += 1;
    }
    false
}

/// The sound roots searched for a song, in order: an omnimix song prefers the omnimix root, any other song the base
/// root; the other one is the fallback, when an omnimix root exists.
pub open spec fn spec_song_roots(is_omnimix: bool, sound: Seq<char>, omni: Option<Seq<char>>) -> Seq<Seq<char>> {
    match omni {
        Some(o) => if is_omnimix {
            seq![o, sound]
        } else {
            seq![sound, o]
        },
        None => seq![sound],
    }
}

/// The view of an optional path.
pub open spec fn opt_view(o: Option<&str>) -> Option<Seq<char>> {
    match o {
        Some(s) => Some(s@),
        None => None,
    }
}

/// The sound roots to search for a song, in order.
pub fn song_roots(is_omnimix: bool, path_sound: &str, path_sound_omni: Option<&str>) -> (roots: Vec<String>)
    ensures
        strings_view(roots@) == spec_song_roots(is_omnimix, path_sound@, opt_view(path_sound_omni)),
{
    let mut roots: Vec<String> = Vec::new();
    match path_sound_omni {
        Some(omni) => {
            if is_omnimix {
                roots.push(String::from_str(omni));
                roots.push(String::from_str(path_sound));
            } else {
                roots.push(String::from_str(path_sound));
                roots.push(String::from_str(omni));
            }
        },
        None => {
            roots.push(String::from_str(path_sound));
        },
    }
    assert(strings_view(roots@) =~= spec_song_roots(is_omnimix, path_sound@, opt_view(path_sound_omni)));
    roots
}

/// The tasks planned for a list of songs, and the positions of the selected songs that were not found.
pub struct ScanPlan {
    /// one task per selected song that was found, in database order
    pub tasks: Vec<PackTask>,
    /// database positions of the selected songs found under no root, in order
    pub missing: Vec<usize>,
}

/// The views of a list of tasks.
pub open spec fn tasks_view(tasks: Seq<PackTask>) -> Seq<PackTaskView> {
    tasks.map_values(|t: PackTask| t@)
}

/// The views of the probes gathered for each song.
pub open spec fn song_probes_view(probes: Seq<Vec<RootProbe>>) -> Seq<Seq<RootProbeView>> {
    probes.map_values(|v: Vec<RootProbe>| probes_view(v@))
}

/// The task planned for a found song: its record, its input, and its output path.
pub open spec fn planned_task(path_out: Seq<char>, info: MusicView, input: SongInputView, sep: char) -> PackTaskView {
    PackTaskView { info, input, dst_path: spec_build_dst(path_out, info.version, info.title, sep) }
}

/// The tasks and the missing positions after planning the first `k` songs.
pub open spec fn plan_upto(
    sound: Seq<char>,
    omni: Option<Seq<char>>,
    path_out: Seq<char>,
    music: Seq<MusicView>,
    versions: Seq<u8>,
    probes: Seq<Seq<RootProbeView>>,
    sep: char,
    k: nat,
) -> (Seq<PackTaskView>, Seq<int>)
    decreases k,
{
    if k == 0 {
        (Seq::empty(), Seq::empty())
    } else {
        let (tasks, missing) = plan_upto(sound, omni, path_out, music, versions, probes, sep, (k - 1) as nat);
        let i = k - 1;
        let info = music[i];
        if !is_selected(info, versions) {
            (tasks, missing)
        } else {
            match locate_from(
                spec_song_roots(info.is_omnimix, sound, omni),
                spec_id5(info.id),
                probes[i],
                sep,
                0,
            ) {
                Some(input) => (tasks.push(planned_task(path_out, info, input, sep)), missing),
                None => (tasks, missing.push(i)),
            }
        }
    }
}

/// Every selected song has one probe per sound root it is searched under.
pub open spec fn probes_fit(
    music: Seq<MusicInfo>,
    versions: Seq<u8>,
    probes: Seq<Vec<RootProbe>>,
    omni: Option<Seq<char>>,
) -> bool {
    &&& probes.len() == music.len()
    &&& forall|i: int|
        0 <= i < music.len() && is_selected(#[trigger] music[i]@, versions) ==> probes[i]@.len() == if omni is Some {
            2int
        } else {
            1int
        }
}

/// Plan one task per selected song that is found under the sound roots (`probes[i]` holds what was probed for song
/// `i` under each of its roots, in [`song_roots`] order; `sep` is the platform's path separator); report the selected
/// songs that were not found.
pub fn scan_songs(
    path_sound: &str,
    path_sound_omni: Option<&str>,
    path_out: &str,
    vec_music: &[MusicInfo],
    versions: &[u8],
    probes: &[Vec<RootProbe>],
    sep: char,
) -> (plan: ScanPlan)
    requires
        probes_fit(vec_music@, versions@, probes@, opt_view(path_sound_omni)),
    ensures
        (tasks_view(plan.tasks@), plan.missing@.map_values(|m: usize| m as int)) == plan_upto(
            path_sound@,
            opt_view(path_sound_omni),
            path_out@,
            music_views(vec_music@),
            versions@,
            song_probes_view(probes@),
            sep,
            vec_music@.len() as nat,
        ),
{
    let ghost sound = path_sound@;
    let ghost omni = opt_view(path_sound_omni);
    let ghost music = music_views(vec_music@);
    let ghost pv = song_probes_view(probes@);
    let mut tasks: Vec<PackTask> = Vec::new();
    let mut missing: Vec<usize> = Vec::new();
    let mut i: usize = 0;
    while i < vec_music.len()
        invariant
            sound == path_sound@,
            omni == opt_view(path_sound_omni),
            music == music_views(vec_music@),
            pv == song_probes_view(probes@),
            probes_fit(vec_music@, versions@, probes@, omni),
            i <= vec_music@.len(),
            (tasks_view(tasks@), missing@.map_values(|m: usize| m as int)) == plan_upto(
                sound,
                omni,
                path_out@,
                music,
                versions@,
                pv,
                sep,
                i as nat,
            ),
        decreases vec_music@.len() - i,
    {
        let info = &vec_music[i];
        assert(music[i as int] == info@);
        let ghost before_missing = missing@;
        let ghost before_tasks = tasks@;
        if song_selected(info, versions) {
            let id5 = song_id5(info.id);
            let roots = song_roots(info.is_omnimix, path_sound, path_sound_omni);
            assert(pv[i as int] == probes_view(probes@[i as int]@));
            match locate_input(roots.as_slice(), id5.as_str(), probes[i].as_slice(), sep) {
                Some(input) => {
                    let dst_path = build_dst(path_out, info.version, info.str_title.as_str(), sep);
                    let task = PackTask { info: info.duplicate(), input, dst_path };
                    tasks.push(task);
                    assert(tasks_view(tasks@) =~= tasks_view(before_tasks).push(task@));
                },
                None => {
                    missing.push(i);
                    assert(missing@.map_values(|m: usize| m as int) =~= before_missing.map_values(
                        |m: usize| m as int,
                    ).push(i as int));
                },
            }
        }
        i += 1;
    }
    ScanPlan { tasks, missing }
}

// ---- omnimix patch discovery -----------------------------------------------------------------------------------

/// How many levels below the contents directory the omnimix directory is searched for (it sits two levels down, at
/// `contents/data_mods/omnimix`).
pub const OMNIMIX_SEARCH_DEPTH: u32 = 2;

/// A directory and its sub-directories, as listed from disk (in listing order).
pub struct DirNode {
    /// full path of the directory
    pub path: String,
    /// the directory's own name
    pub name: String,
    /// its sub-directories; empty when it could not be listed or lies below the listed depth
    pub children: Vec<DirNode>,
}

/// The path of the first child (from position `i` on) named `name`.
pub open spec fn child_named(cs: Seq<DirNode>, name: Seq<char>, i: int) -> Option<Seq<char>>
    decreases cs.len() - i,
{
    if i < 0 || i >= cs.len() {
        None
    } else if cs[i].name@ == name {
        Some(cs[i].path@)
    } else {
        child_named(cs, name, i + 1)
    }
}

/// The sub-directory named `name` found at most `depth` levels below `node`: none when `depth` is 0; else a child
/// with that name (the first in listing order), else the first hit of the same search, one level less deep, in each
/// child in turn.
pub open spec fn spec_find_dir(node: DirNode, name: Seq<char>, depth: nat) -> Option<Seq<char>>
    decreases depth, 0int,
{
    if depth == 0 {
        None
    } else {
        match child_named(node.children@, name, 0) {
            Some(p) => Some(p),
            None => find_in_children(node.children@, name, (depth - 1) as nat, 0),
        }
    }
}

/// The first hit of the search in the children from position `i` on.
pub open spec fn find_in_children(cs: Seq<DirNode>, name: Seq<char>, depth: nat, i: int) -> Option<Seq<char>>
    decreases depth, cs.len() - i + 1,
{
    if i < 0 || i >= cs.len() {
        None
    } else {
        match spec_find_dir(cs[i], name, depth) {
            Some(p) => Some(p),
            None => find_in_children(cs, name, depth, i + 1),
        }
    }
}

/// Search at most `depth` levels below `node` for a sub-directory with the given name (checks the children before
/// recursing into them).
pub fn find_dir(node: &DirNode, str_name: &str, depth: u32) -> (r: Option<String>)
    ensures
        match r {
            Some(p) => spec_find_dir(*node, str_name@, depth as nat) == Some(p@),
            None => spec_find_dir(*node, str_name@, depth as nat) == None::<Seq<char>>,
        },
    decreases depth, 0int,
{
    if depth == 0 {
        return None;
    }
    let ghost cs = node.children@;
    let n = node.children.len();
    let mut i: usize = 0;
    while i < n
        invariant
            cs == node.children@,
            n == cs.len(),
            depth > 0,
            i <= n,
            child_named(cs, str_name@, 0) == child_named(cs, str_name@, i as int),
        decreases n - i,
    {
        if str_eq(node.children[i].name.as_str(), str_name) {
            return Some(String::from_str(node.children[i].path.as_str()));
        }
        i += 1;
    }
    let mut k: usize = 0;
    while k < n
        invariant
            cs == node.children@,
            n == cs.len(),
            depth > 0,
            k <= n,
            child_named(cs, str_name@, 0) == None::<Seq<char>>,
            find_in_children(cs, str_name@, (depth - 1) as nat, 0) == find_in_children(
                cs,
                str_name@,
                (depth - 1) as nat,
                k as int,
            ),
        decreases n - k,
    {
        if let Some(p) = find_dir(&node.children[k], str_name, depth - 1) {
            return Some(p);
        }
        k += 1;
    }
    None
}

/// Every directory listed within `depth` levels below `node` has its parent's path joined with its own name (with
/// the platform's separator `sep`) as its path.
pub open spec fn paths_consistent(node: DirNode, depth: nat, sep: char) -> bool
    decreases depth,
{
    depth == 0 || forall|i: int|
        0 <= i < node.children@.len() ==> {
            &&& (#[trigger] node.children@[i]).path@ == spec_join_path(node.path@, node.children@[i].name@, sep)
            &&& paths_consistent(node.children@[i], (depth - 1) as nat, sep)
        }
}

proof fn lemma_child_named(cs: Seq<DirNode>, name: Seq<char>, i: int)
    ensures
        child_named(cs, name, i) matches Some(p) ==> exists|j: int|
            0 <= j < cs.len() && (#[trigger] cs[j]).name@ == name && cs[j].path@ == p,
    decreases cs.len() - i,
{
    if 0 <= i < cs.len() && cs[i].name@ != name {
        lemma_child_named(cs, name, i + 1);
    }
}

proof fn lemma_find_at_depth_zero(cs: Seq<DirNode>, name: Seq<char>, i: int)
    ensures
        find_in_children(cs, name, 0, i) == None::<Seq<char>>,
    decreases cs.len() - i,
{
    if 0 <= i < cs.len() {
        lemma_find_at_depth_zero(cs, name, i + 1);
        assert(spec_find_dir(cs[i], name, 0) == None::<Seq<char>>);
    }
}

proof fn lemma_find_in_grandchildren(cs: Seq<DirNode>, name: Seq<char>, i: int)
    ensures
        find_in_children(cs, name, 1, i) matches Some(p) ==> exists|j: int, k: int|
            0 <= j < cs.len() && 0 <= k < cs[j].children@.len() && (#[trigger] cs[j].children@[k]).name@ == name
                && cs[j].children@[k].path@ == p,
    decreases cs.len() - i,
{
    if 0 <= i < cs.len() {
        lemma_find_in_grandchildren(cs, name, i + 1);
        let gs = cs[i].children@;
        lemma_child_named(gs, name, 0);
        lemma_find_at_depth_zero(gs, name, 0);
        assert(spec_find_dir(cs[i], name, 1) == child_named(gs, name, 0));
        if let Some(p) = child_named(gs, name, 0) {
            let k = choose|k: int| 0 <= k < gs.len() && (#[trigger] gs[k]).name@ == name && gs[k].path@ == p;
            assert(cs[i].children@[k].name@ == name);
        }
    }
}

/// Locate the "omnimix" directory at most [`OMNIMIX_SEARCH_DEPTH`] levels below the contents directory `root`, the
/// shallowest match first: a child named "omnimix", else a grandchild with that name. `None` when no patch is
/// installed. When the listing's paths are consistent, the result is `root/omnimix` or `root/<dir>/omnimix`.
pub fn find_omnimix(root: &DirNode) -> (r: Option<String>)
    ensures
        match r {
            Some(p) => spec_find_dir(*root, "omnimix"@, OMNIMIX_SEARCH_DEPTH as nat) == Some(p@),
            None => spec_find_dir(*root, "omnimix"@, OMNIMIX_SEARCH_DEPTH as nat) == None::<Seq<char>>,
        },
        r matches Some(p) ==> {
            ||| exists|i: int|
                0 <= i < root.children@.len() && (#[trigger] root.children@[i]).name@ == "omnimix"@
                    && root.children@[i].path@ == p@
            ||| exists|i: int, k: int|
                0 <= i < root.children@.len() && 0 <= k < root.children@[i].children@.len()
                    && (#[trigger] root.children@[i].children@[k]).name@ == "omnimix"@
                    && root.children@[i].children@[k].path@ == p@
        },
        forall|sep: char|
            #![trigger paths_consistent(*root, OMNIMIX_SEARCH_DEPTH as nat, sep)]
            paths_consistent(*root, OMNIMIX_SEARCH_DEPTH as nat, sep) ==> (r matches Some(p) ==> {
                ||| p@ == spec_join_path(root.path@, "omnimix"@, sep)
                ||| exists|i: int|
                    0 <= i < root.children@.len() && p@ == spec_join_path(
                        spec_join_path(root.path@, (#[trigger] root.children@[i]).name@, sep),
                        "omnimix"@,
                        sep,
                    )
            }),
{
    let r = find_dir(root, "omnimix", OMNIMIX_SEARCH_DEPTH);
    proof {
        let cs = root.children@;
        lemma_child_named(cs, "omnimix"@, 0);
        lemma_find_in_grandchildren(cs, "omnimix"@, 0);
        assert forall|sep: char|
            #![trigger paths_consistent(*root, OMNIMIX_SEARCH_DEPTH as nat, sep)]
            paths_consistent(*root, OMNIMIX_SEARCH_DEPTH as nat, sep) implies (r matches Some(p) ==> {
                ||| p@ == spec_join_path(root.path@, "omnimix"@, sep)
                ||| exists|i: int|
                    0 <= i < root.children@.len() && p@ == spec_join_path(
                        spec_join_path(root.path@, (#[trigger] root.children@[i]).name@, sep),
                        "omnimix"@,
                        sep,
                    )
            }) by {
            if let Some(p) = r {
                if let Some(q) = child_named(cs, "omnimix"@, 0) {
                    let j = choose|j: int| 0 <= j < cs.len() && (#[trigger] cs[j]).name@ == "omnimix"@ && cs[j].path@ == q;
                    assert(cs[j].path@ == spec_join_path(root.path@, cs[j].name@, sep));
                } else {
                    let (j, k) = choose|j: int, k: int|
                        0 <= j < cs.len() && 0 <= k < cs[j].children@.len() && (
                        #[trigger] cs[j].children@[k]).name@ == "omnimix"@ && cs[j].children@[k].path@ == p@;
                    assert(paths_consistent(cs[j], 1, sep));
                    assert(cs[j].children@[k].path@ == spec_join_path(cs[j].path@, cs[j].children@[k].name@, sep));
                    assert(cs[j].path@ == spec_join_path(root.path@, cs[j].name@, sep));
                }
            }
        }
    }
    r
}

// ---- the plan, per version -------------------------------------------------------------------------------------

/// How many of `tasks` belong to version `v`.
pub open spec fn version_count(tasks: Seq<PackTaskView>, v: int) -> nat
    decreases tasks.len(),
{
    if tasks.len() == 0 {
        0
    } else {
        version_count(tasks.drop_last(), v) + if tasks.last().info.version == v {
            1nat
        } else {
            0nat
        }
    }
}

/// The (version, task count) pairs of the versions below `n` that have tasks, ascending by version.
pub open spec fn version_summary_below(tasks: Seq<PackTaskView>, n: nat) -> Seq<(u8, nat)>
    decreases n,
{
    if n == 0 {
        Seq::empty()
    } else {
        let rest = version_summary_below(tasks, (n - 1) as nat);
        let c = version_count(tasks, n - 1);
        if c > 0 {
            rest.push(((n - 1) as u8, c))
        } else {
            rest
        }
    }
}

proof fn lemma_version_count_bound(tasks: Seq<PackTaskView>, v: int)
    ensures
        version_count(tasks, v) <= tasks.len(),
    decreases tasks.len(),
{
    if tasks.len() > 0 {
        lemma_version_count_bound(tasks.drop_last(), v);
    }
}

/// The number of planned tasks per version, for every version that has any, ascending by version.
pub fn tasks_per_version(vec_task: &[PackTask]) -> (summary: Vec<(u8, usize)>)
    ensures
        summary@.map_values(|p: (u8, usize)| (p.0, p.1 as nat)) == version_summary_below(
            tasks_view(vec_task@),
            256,
        ),
{
    let ghost tv = tasks_view(vec_task@);
    let mut counts: Vec<usize> = Vec::new();
    let mut v: usize = 0;
    while v < 256
        invariant
            v <= 256,
            counts@.len() == v,
            forall|j: int| 0 <= j < v ==> counts@[j] == 0,
        decreases 256 - v,
    {
        counts.push(0);
        v += 1;
    }
    let mut i: usize = 0;
    assert(tv.take(0) =~= Seq::<PackTaskView>::empty());
    while i < vec_task.len()
        invariant
            tv == tasks_view(vec_task@),
            i <= vec_task@.len(),
            counts@.len() == 256,
            forall|j: int| 0 <= j < 256 ==> #[trigger] counts@[j] == version_count(tv.take(i as int), j),
        decreases vec_task@.len() - i,
    {
        assert(tv.take(i + 1).drop_last() =~= tv.take(i as int));
        let ver = vec_task[i].info.version as usize;
        assert(tv[i as int].info.version == ver);
        proof {
            lemma_version_count_bound(tv.take(i as int), ver as int);
        }
        let c = counts[ver];
        counts.set(ver, c + 1);
        i += 1;
    }
    assert(tv.take(i as int) =~= tv);
    let mut summary: Vec<(u8, usize)> = Vec::new();
    let mut w: usize = 0;
    while w < 256
        invariant
            tv == tasks_view(vec_task@),
            w <= 256,
            counts@.len() == 256,
            forall|j: int| 0 <= j < 256 ==> #[trigger] counts@[j] == version_count(tv, j),
            summary@.map_values(|p: (u8, usize)| (p.0, p.1 as nat)) == version_summary_below(tv, w as nat),
        decreases 256 - w,
    {
        let ghost before = summary@;
        let c = counts[w];
        if c > 0 {
            summary.push((w as u8, c));
            assert(summary@.map_values(|p: (u8, usize)| (p.0, p.1 as nat)) =~= before.map_values(
                |p: (u8, usize)| (p.0, p.1 as nat),
            ).push((w as u8, c as nat)));
        }
        w += 1;
    }
    summary
}

/// The sum of the counts of a summary.
pub open spec fn summary_total(summary: Seq<(u8, nat)>) -> nat
    decreases summary.len(),
{
    if summary.len() == 0 {
        0
    } else {
        summary_total(summary.drop_last()) + summary.last().1
    }
}

/// The number of tasks whose version is below `n`.
pub open spec fn count_below(tasks: Seq<PackTaskView>, n: nat) -> nat
    decreases n,
{
    if n == 0 {
        0
    } else {
        count_below(tasks, (n - 1) as nat) + version_count(tasks, n - 1)
    }
}

proof fn lemma_summary_total(tasks: Seq<PackTaskView>, n: nat)
    ensures
        summary_total(version_summary_below(tasks, n)) == count_below(tasks, n),
    decreases n,
{
    if n > 0 {
        lemma_summary_total(tasks, (n - 1) as nat);
        let rest = version_summary_below(tasks, (n - 1) as nat);
        let c = version_count(tasks, n - 1);
        if c > 0 {
            assert(rest.push(((n - 1) as u8, c)).drop_last() =~= rest);
        }
    }
}

proof fn lemma_count_below_step(tasks: Seq<PackTaskView>, n: nat)
    requires
        tasks.len() > 0,
    ensures
        count_below(tasks, n) == count_below(tasks.drop_last(), n) + if tasks.last().info.version < n {
            1nat
        } else {
            0nat
        },
    decreases n,
{
    if n > 0 {
        lemma_count_below_step(tasks, (n - 1) as nat);
    }
}

proof fn lemma_count_below_all(tasks: Seq<PackTaskView>)
    ensures
        count_below(tasks, 256) == tasks.len(),
    decreases tasks.len(),
{
    if tasks.len() > 0 {
        lemma_count_below_all(tasks.drop_last());
        lemma_count_below_step(tasks, 256);
    } else {
        lemma_count_below_zero(tasks, 256);
    }
}

proof fn lemma_count_below_zero(tasks: Seq<PackTaskView>, n: nat)
    requires
        tasks.len() == 0,
    ensures
        count_below(tasks, n) == 0,
    decreases n,
{
    if n > 0 {
        lemma_count_below_zero(tasks, (n - 1) as nat);
    }
}

/// Law: the per-version breakdown of a plan adds up to the number of planned tasks.
pub proof fn lemma_version_summary_total(tasks: Seq<PackTaskView>)
    ensures
        summary_total(version_summary_below(tasks, 256)) == tasks.len(),
{
    lemma_summary_total(tasks, 256);
    lemma_count_below_all(tasks);
}

/// Law: with no version selected every valid song is converted; otherwise a valid song is converted exactly when one
/// of the selected versions is its version. An invalid slot is never converted.
pub proof fn lemma_selection(info: MusicView, versions: Seq<u8>)
    ensures
        !info.is_valid ==> !is_selected(info, versions),
        info.is_valid && versions.len() == 0 ==> is_selected(info, versions),
        forall|i: int| 0 <= i < versions.len() && info.is_valid && versions[i] == info.version ==> is_selected(
            info,
            versions,
        ),
        is_selected(info, versions) && versions.len() > 0 ==> exists|i: int|
            0 <= i < versions.len() && versions[i] == info.version,
{
    assert forall|i: int| 0 <= i < versions.len() && info.is_valid && versions[i] == info.version implies is_selected(
        info,
        versions,
    ) by {
        assert(versions.contains(info.version));
    }
}

} // verus!
