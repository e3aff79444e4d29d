//! A whole resolution pass over a script store that is held in memory.
use vstd::prelude::*;
use crate::resolver::{
    after_lines, continues, lemma_lines_continue, lemma_lines_keep_sound, lemma_without_latest_sound,
    sound, without_latest, LocalFile, Progress, Resolution, Setting,
};
use crate::text::{contains_text, strings, text_lines};

verus! {

/// A script of the store: its key and its text.
pub struct ScriptSource {
    pub path: String,
    pub content: String,
}

/// The keys and texts of a list of scripts.
pub open spec fn sources(v: Seq<ScriptSource>) -> Seq<(Seq<char>, Seq<char>)> {
    Seq::new(v.len(), |i: int| (v[i].path@, v[i].content@))
}

/// The names and texts of a list of files.
pub open spec fn files(v: Seq<LocalFile>) -> Seq<(Seq<char>, Seq<char>)> {
    Seq::new(v.len(), |i: int| (v[i].name@, v[i].content@))
}

/// The place of the first script at or after `from` that is stored under
/// `key`.
pub open spec fn position_from(store: Seq<(Seq<char>, Seq<char>)>, key: Seq<char>, from: int) -> Option<int>
    decreases store.len() - from,
{
    if from < 0 || from >= store.len() {
        None
    } else if store[from].0 == key {
        Some(from)
    } else {
        position_from(store, key, from + 1)
    }
}

/// The progress `p` with another text in progress.
pub open spec fn with_code(p: Progress, code: Seq<char>) -> Progress {
    Progress {
        code,
        visited: p.visited,
        handled: p.handled,
        install: p.install,
        logs: p.logs,
        pending: p.pending,
    }
}

/// The place in `remaining` of the script for the latest pending module.
pub open spec fn latest_place(p: Progress, remaining: Seq<(Seq<char>, Seq<char>)>) -> Option<int> {
    match position_from(remaining, p.pending.last().0, 0) {
        Some(k) => if 0 <= k < remaining.len() {
            Some(k)
        } else {
            None
        },
        None => None,
    }
}

/// The scripts not yet used after the latest pending module was looked up.
pub open spec fn next_remaining(p: Progress, remaining: Seq<(Seq<char>, Seq<char>)>) -> Seq<(Seq<char>, Seq<char>)> {
    match latest_place(p, remaining) {
        Some(k) => remaining.remove(k),
        None => remaining,
    }
}

/// Whether the latest pending module is scanned: its script is there and no
/// file of its name is taken.
pub open spec fn latest_is_scanned(p: Progress, remaining: Seq<(Seq<char>, Seq<char>)>, taken: Seq<Seq<char>>) -> bool {
    latest_place(p, remaining) is Some && !taken.contains(p.pending.last().1)
}

/// The file names taken after the latest pending module was dealt with.
pub open spec fn next_taken(p: Progress, remaining: Seq<(Seq<char>, Seq<char>)>, taken: Seq<Seq<char>>) -> Seq<Seq<char>> {
    if latest_is_scanned(p, remaining, taken) {
        taken.push(p.pending.last().1)
    } else {
        taken
    }
}

/// The progress after the latest pending module was dealt with.
pub open spec fn next_progress(
    p: Progress,
    e: Setting,
    remaining: Seq<(Seq<char>, Seq<char>)>,
    taken: Seq<Seq<char>>,
) -> Progress {
    if latest_is_scanned(p, remaining, taken) {
        with_code(latest_scan(p, e, remaining), Seq::empty())
    } else {
        without_latest(p)
    }
}

/// The progress at the end of the scan of the latest pending module, with
/// the rewritten text of its script.
pub open spec fn latest_scan(p: Progress, e: Setting, remaining: Seq<(Seq<char>, Seq<char>)>) -> Progress {
    let text = remaining[latest_place(p, remaining)->0].1;
    after_lines(with_code(without_latest(p), text), e, text_lines(text))
}

/// The files written after the latest pending module was dealt with.
pub open spec fn next_written(
    p: Progress,
    e: Setting,
    remaining: Seq<(Seq<char>, Seq<char>)>,
    taken: Seq<Seq<char>>,
    written: Seq<(Seq<char>, Seq<char>)>,
) -> Seq<(Seq<char>, Seq<char>)> {
    if latest_is_scanned(p, remaining, taken) {
        written.push((p.pending.last().1, latest_scan(p, e, remaining).code))
    } else {
        written
    }
}



/// The end of a pass: the latest pending module is looked up among the
/// scripts not yet used; where it is found and no file of its name is
/// taken, it is scanned in turn and becomes a file; this goes on until
/// nothing is pending. Every round uses up a script or a pending module, so
/// the pass ends whatever the scripts import.
pub open spec fn finish(
    p: Progress,
    e: Setting,
    remaining: Seq<(Seq<char>, Seq<char>)>,
    taken: Seq<Seq<char>>,
    written: Seq<(Seq<char>, Seq<char>)>,
) -> (Progress, Seq<(Seq<char>, Seq<char>)>)
    decreases remaining.len(), p.pending.len(),
{
    if p.pending.len() == 0 {
        (p, written)
    } else {
        finish(
            next_progress(p, e, remaining, taken),
            e,
            next_remaining(p, remaining),
            next_taken(p, remaining, taken),
            next_written(p, e, remaining, taken, written),
        )
    }
}

/// Finds the first script stored under `key`.
pub fn find_source(store: &Vec<ScriptSource>, key: &String) -> (r: Option<usize>)
    ensures
        match r {
            Some(k) => k < store.len() && position_from(sources(store@), key@, 0) == Some(k as int),
            None => position_from(sources(store@), key@, 0) is None,
        },
{
    let mut i: usize = 0;
    while i < store.len()
        invariant
            i <= store.len(),
            position_from(sources(store@), key@, 0) == position_from(sources(store@), key@, i as int),
        decreases store.len() - i,
    {
        if store[i].path == *key {
            return Some(i);
        }
        i = i + 1;
    }
    None
}

/// A pass always comes to an end with nothing pending; it keeps, in their
/// order, the modules visited and the files written before it.
pub proof fn lemma_finish(
    p: Progress,
    e: Setting,
    remaining: Seq<(Seq<char>, Seq<char>)>,
    taken: Seq<Seq<char>>,
    written: Seq<(Seq<char>, Seq<char>)>,
)
    requires
        sound(p),
    ensures
        finish(p, e, remaining, taken, written).0.pending.len() == 0,
        sound(finish(p, e, remaining, taken, written).0),
        p.visited.is_prefix_of(finish(p, e, remaining, taken, written).0.visited),
        written.is_prefix_of(finish(p, e, remaining, taken, written).1),
    decreases remaining.len(), p.pending.len(),
{
    if p.pending.len() > 0 {
        let next = next_progress(p, e, remaining, taken);
        let more = next_written(p, e, remaining, taken, written);
        lemma_next_progress(p, e, remaining, taken);
        lemma_finish(next, e, next_remaining(p, remaining), next_taken(p, remaining, taken), more);
        let end = finish(next, e, next_remaining(p, remaining), next_taken(p, remaining, taken), more);
        assert(written.is_prefix_of(more));
        assert(written.is_prefix_of(end.1));
        assert(p.visited.is_prefix_of(end.0.visited));
    }
}

/// The keys looked up in the store while a pass is run to its end, in the
/// order of the lookups.
pub open spec fn lookups(
    p: Progress,
    e: Setting,
    remaining: Seq<(Seq<char>, Seq<char>)>,
    taken: Seq<Seq<char>>,
) -> Seq<Seq<char>>
    decreases remaining.len(), p.pending.len(),
{
    if p.pending.len() == 0 {
        Seq::empty()
    } else {
        let key = p.pending.last().0;
        seq![key] + lookups(next_progress(p, e, remaining, taken), e, next_remaining(p, remaining), next_taken(p, remaining, taken))
    }
}

/// Whether the module `key` is pending.
pub open spec fn is_pending(p: Progress, key: Seq<char>) -> bool {
    exists|i: int| 0 <= i < p.pending.len() && #[trigger] p.pending[i].0 == key
}

/// Dealing with the latest pending module keeps the progress sound and what
/// was visited; a module pending afterwards was pending before, and not the
/// latest, or had not been visited.
pub proof fn lemma_next_progress(
    p: Progress,
    e: Setting,
    remaining: Seq<(Seq<char>, Seq<char>)>,
    taken: Seq<Seq<char>>,
)
    requires
        sound(p),
        p.pending.len() > 0,
    ensures
        sound(next_progress(p, e, remaining, taken)),
        continues(without_latest(p), next_progress(p, e, remaining, taken)),
{
    let rest = without_latest(p);
    lemma_without_latest_sound(p);
    if latest_is_scanned(p, remaining, taken) {
        let text = remaining[latest_place(p, remaining)->0].1;
        lemma_lines_keep_sound(with_code(rest, text), e, text_lines(text));
        lemma_lines_continue(with_code(rest, text), e, text_lines(text));
    }
}

/// A key that is looked up is pending at the start or had not been visited
/// then.
pub proof fn lemma_lookups_origin(
    p: Progress,
    e: Setting,
    remaining: Seq<(Seq<char>, Seq<char>)>,
    taken: Seq<Seq<char>>,
    key: Seq<char>,
)
    requires
        sound(p),
        lookups(p, e, remaining, taken).contains(key),
    ensures
        is_pending(p, key) || !p.visited.contains(key),
    decreases remaining.len(), p.pending.len(),
{
    if p.pending.len() > 0 {
        let first = p.pending.last().0;
        let rest = without_latest(p);
        let next = next_progress(p, e, remaining, taken);
        let later = lookups(next, e, next_remaining(p, remaining), next_taken(p, remaining, taken));
        let all = lookups(p, e, remaining, taken);
        let at = choose|i: int| 0 <= i < all.len() && all[i] == key;
        if at == 0 {
            assert(p.pending[p.pending.len() - 1].0 == key);
        } else {
            assert(later[at - 1] == key);
            lemma_next_progress(p, e, remaining, taken);
            lemma_lookups_origin(next, e, next_remaining(p, remaining), next_taken(p, remaining, taken), key);
            if is_pending(next, key) {
                let i = choose|i: int| 0 <= i < next.pending.len() && #[trigger] next.pending[i].0 == key;
                if i < rest.pending.len() {
                    assert(next.pending[i] == rest.pending[i]);
                    assert(p.pending[i].0 == key);
                }
            } else {
                if p.visited.contains(key) {
                    let k = choose|k: int| 0 <= k < p.visited.len() && p.visited[k] == key;
                    assert(next.visited[k] == key);
                }
            }
        }
    }
}

/// From a sound start no key is looked up twice while a pass is run to its
/// end: each module is fetched from the store at most once, whatever the
/// scripts import.
pub proof fn lemma_lookups_distinct(
    p: Progress,
    e: Setting,
    remaining: Seq<(Seq<char>, Seq<char>)>,
    taken: Seq<Seq<char>>,
)
    requires
        sound(p),
    ensures
        lookups(p, e, remaining, taken).no_duplicates(),
    decreases remaining.len(), p.pending.len(),
{
    if p.pending.len() > 0 {
        let last = p.pending.len() - 1;
        let first = p.pending[last].0;
        let rest = without_latest(p);
        let next = next_progress(p, e, remaining, taken);
        let left = next_remaining(p, remaining);
        let names = next_taken(p, remaining, taken);
        let later = lookups(next, e, left, names);
        let all = lookups(p, e, remaining, taken);
        lemma_next_progress(p, e, remaining, taken);
        lemma_lookups_distinct(next, e, left, names);
        if later.contains(first) {
            lemma_lookups_origin(next, e, left, names, first);
            assert(p.visited.contains(first));
            let k = choose|k: int| 0 <= k < p.visited.len() && p.visited[k] == first;
            assert(next.visited[k] == first);
            assert(rest.visited.contains(first));
            let i = choose|i: int| 0 <= i < next.pending.len() && #[trigger] next.pending[i].0 == first;
            if i < rest.pending.len() {
                assert(next.pending[i] == rest.pending[i]);
                assert(p.pending[i].0 == p.pending[last].0);
            }
            assert(false);
        }
        assert forall|i: int, j: int| 0 <= i < all.len() && 0 <= j < all.len() && i != j implies all[i] != all[j] by {
            if i > 0 {
                assert(all[i] == later[i - 1]);
            }
            if j > 0 {
                assert(all[j] == later[j - 1]);
            }
        }
    }
}

/// Every key that is looked up is visited at the end of the pass.
pub proof fn lemma_lookups_visited(
    p: Progress,
    e: Setting,
    remaining: Seq<(Seq<char>, Seq<char>)>,
    taken: Seq<Seq<char>>,
    written: Seq<(Seq<char>, Seq<char>)>,
    key: Seq<char>,
)
    requires
        sound(p),
        lookups(p, e, remaining, taken).contains(key),
    ensures
        finish(p, e, remaining, taken, written).0.visited.contains(key),
    decreases remaining.len(), p.pending.len(),
{
    if p.pending.len() > 0 {
        let next = next_progress(p, e, remaining, taken);
        let left = next_remaining(p, remaining);
        let names = next_taken(p, remaining, taken);
        let more = next_written(p, e, remaining, taken, written);
        let all = lookups(p, e, remaining, taken);
        let later = lookups(next, e, left, names);
        let end = finish(p, e, remaining, taken, written).0;
        let at = choose|i: int| 0 <= i < all.len() && all[i] == key;
        lemma_next_progress(p, e, remaining, taken);
        if at == 0 {
            lemma_finish(p, e, remaining, taken, written);
            assert(p.visited.contains(p.pending[p.pending.len() - 1].0));
            let k = choose|k: int| 0 <= k < p.visited.len() && p.visited[k] == key;
            assert(end.visited[k] == key);
        } else {
            assert(later[at - 1] == key);
            lemma_lookups_visited(next, e, left, names, more, key);
        }
    }
}

/// What a pass over a store in memory gives back.
pub struct Tree {
    /// The files to write, in the order in which they were resolved.
    pub files: Vec<LocalFile>,
    /// The keys looked up in the store, in the order of the lookups.
    pub fetched: Vec<String>,
}

/// Runs a pass to its end over the scripts of `store`, of which the first
/// under a key counts. `existing` names the files that are already there
/// and are left alone. No key is looked up twice; a key that is looked up
/// was pending at the start or had not been visited then, and is visited at
/// the end.
pub fn resolve_tree(res: &mut Resolution, store: Vec<ScriptSource>, existing: Vec<String>) -> (r: Tree)
    requires
        old(res).wf(),
    ensures
        final(res).wf(),
        final(res).setting() == old(res).setting(),
        final(res).pending@.len() == 0,
        (final(res).progress(Seq::empty()), files(r.files@)) == finish(
            old(res).progress(Seq::empty()),
            old(res).setting(),
            sources(store@),
            strings(existing@),
            Seq::empty(),
        ),
        strings(r.fetched@) == lookups(
            old(res).progress(Seq::empty()),
            old(res).setting(),
            sources(store@),
            strings(existing@),
        ),
        strings(r.fetched@).no_duplicates(),
        old(res).progress(Seq::empty()).visited.is_prefix_of(final(res).progress(Seq::empty()).visited),
        forall|key: Seq<char>| #[trigger]
            strings(r.fetched@).contains(key) ==> final(res).progress(Seq::empty()).visited.contains(key) && (
            is_pending(old(res).progress(Seq::empty()), key) || !old(res).progress(
                Seq::empty(),
            ).visited.contains(key)),
{
    let mut remaining = store;
    let mut taken = existing;
    let mut out: Vec<LocalFile> = Vec::new();
    let mut fetched: Vec<String> = Vec::new();
    let ghost e = res.setting();
    let ghost start = res.progress(Seq::empty());
    let ghost goal = finish(start, e, sources(remaining@), strings(taken@), Seq::empty());
    let ghost asked = lookups(start, e, sources(remaining@), strings(taken@));
    proof {
        assert(files(out@) =~= Seq::<(Seq<char>, Seq<char>)>::empty());
        assert(strings(fetched@) + asked =~= asked);
        lemma_lookups_distinct(start, e, sources(remaining@), strings(taken@));
        lemma_finish(start, e, sources(remaining@), strings(taken@), Seq::empty());
        assert forall|key: Seq<char>| asked.contains(key) implies goal.0.visited.contains(key) && (is_pending(
            start,
            key,
        ) || !start.visited.contains(key)) by {
            lemma_lookups_visited(start, e, sources(remaining@), strings(taken@), Seq::empty(), key);
            lemma_lookups_origin(start, e, sources(remaining@), strings(taken@), key);
        }
    }
    while res.pending.len() > 0
        invariant
            res.wf(),
            res.setting() == e,
            goal == finish(res.progress(Seq::empty()), e, sources(remaining@), strings(taken@), files(out@)),
            asked == strings(fetched@) + lookups(
                res.progress(Seq::empty()),
                e,
                sources(remaining@),
                strings(taken@),
            ),
        decreases remaining.len(), res.pending.len(),
    {
        let ghost p0 = res.progress(Seq::empty());
        let ghost rem0 = sources(remaining@);
        let ghost taken0 = strings(taken@);
        let ghost out0 = files(out@);
        let ghost got0 = strings(fetched@);
        let p = res.take_pending().unwrap();
        assert(p0.pending.last() == (p.key@, p.file_name@));
        assert(res.progress(Seq::empty()) == without_latest(p0));
        fetched.push(p.key.clone());
        assert(strings(fetched@) =~= got0.push(p.key@));
        match find_source(&remaining, &p.key) {
            Some(k) => {
                let src = remaining.remove(k);
                assert(sources(remaining@) =~= rem0.remove(k as int));
                let there = contains_text(&taken, &p.file_name);
                let name = p.file_name.clone();
                let ghost rest = res.progress(Seq::empty());
                assert(res.progress(src.content@) == with_code(rest, src.content@));
                match res.take_source(p, Some(src.content), there) {
                    Some(file) => {
                        assert(res.progress(Seq::empty()) == with_code(res.progress(file.content@), Seq::empty()));
                        taken.push(name);
                        assert(strings(taken@) =~= taken0.push(name@));
                        let ghost code = file.content@;
                        out.push(file);
                        assert(files(out@) =~= out0.push((name@, code)));
                    },
                    None => {},
                }
            },
            None => {},
        }
        assert(got0 + (seq![p0.pending.last().0] + lookups(
            res.progress(Seq::empty()),
            e,
            sources(remaining@),
            strings(taken@),
        )) =~= strings(fetched@) + lookups(res.progress(Seq::empty()), e, sources(remaining@), strings(taken@)));
    }
    assert(strings(fetched@) + Seq::<Seq<char>>::empty() =~= strings(fetched@));
    Tree { files: out, fetched }
}

/// A script with its imports resolved.
pub struct Resolved {
    /// The script itself, with the imports of workspace modules rewritten.
    pub main: String,
    /// The workspace modules it needs, directly or through others.
    pub files: Vec<LocalFile>,
    /// The keys looked up in the store, in the order of the lookups.
    pub fetched: Vec<String>,
}

/// What a pass over `content` comes to: the script is scanned, then the
/// pass is run to its end.
pub open spec fn resolution(
    p: Progress,
    e: Setting,
    content: Seq<char>,
    store: Seq<(Seq<char>, Seq<char>)>,
    existing: Seq<Seq<char>>,
) -> (Seq<char>, Progress, Seq<(Seq<char>, Seq<char>)>) {
    let scanned = after_lines(with_code(p, content), e, text_lines(content));
    let end = finish(with_code(scanned, Seq::empty()), e, store, existing, Seq::empty());
    (scanned.code, end.0, end.1)
}

/// The keys looked up in the store during a pass over `content`.
pub open spec fn resolution_lookups(
    p: Progress,
    e: Setting,
    content: Seq<char>,
    store: Seq<(Seq<char>, Seq<char>)>,
    existing: Seq<Seq<char>>,
) -> Seq<Seq<char>> {
    let scanned = after_lines(with_code(p, content), e, text_lines(content));
    lookups(with_code(scanned, Seq::empty()), e, store, existing)
}

/// Resolves the imports of a script, and of every workspace module that it
/// reaches, against the scripts of `store`. Each key is fetched from the
/// store at most once; a key that is fetched was pending at the start or
/// had not been visited then, and is visited at the end; what was visited
/// at the start stays so. From a start with nothing pending, as `new`
/// gives it, no key that was visited before is fetched.
pub fn handle_powershell_deps(
    res: &mut Resolution,
    content: &str,
    store: Vec<ScriptSource>,
    existing: Vec<String>,
) -> (r: Resolved)
    requires
        old(res).wf(),
    ensures
        final(res).wf(),
        final(res).setting() == old(res).setting(),
        final(res).pending@.len() == 0,
        (r.main@, final(res).progress(Seq::empty()), files(r.files@)) == resolution(
            old(res).progress(Seq::empty()),
            old(res).setting(),
            content@,
            sources(store@),
            strings(existing@),
        ),
        strings(r.fetched@) == resolution_lookups(
            old(res).progress(Seq::empty()),
            old(res).setting(),
            content@,
            sources(store@),
            strings(existing@),
        ),
        strings(r.fetched@).no_duplicates(),
        old(res).progress(Seq::empty()).visited.is_prefix_of(final(res).progress(Seq::empty()).visited),
        forall|key: Seq<char>| #[trigger]
            strings(r.fetched@).contains(key) ==> final(res).progress(Seq::empty()).visited.contains(key) && (
            is_pending(old(res).progress(Seq::empty()), key) || !old(res).progress(
                Seq::empty(),
            ).visited.contains(key)),
        old(res).pending@.len() == 0 ==> forall|key: Seq<char>| #[trigger]
            strings(r.fetched@).contains(key) ==> !old(res).progress(Seq::empty()).visited.contains(key),
{
    let ghost start = res.progress(Seq::empty());
    assert(res.progress(content@) == with_code(start, content@));
    let main = res.scan(content);
    let ghost mid = res.progress(Seq::empty());
    assert(mid == with_code(res.progress(main@), Seq::empty()));
    let tree = resolve_tree(res, store, existing);
    proof {
        assert forall|key: Seq<char>| #[trigger] strings(tree.fetched@).contains(key) implies is_pending(start, key)
            || !start.visited.contains(key) by {
            if is_pending(mid, key) {
                let i = choose|i: int| 0 <= i < mid.pending.len() && #[trigger] mid.pending[i].0 == key;
                if i < start.pending.len() {
                    assert(start.pending[i] == mid.pending[i]);
                }
            } else {
                if start.visited.contains(key) {
                    let k = choose|k: int| 0 <= k < start.visited.len() && start.visited[k] == key;
                    assert(mid.visited[k] == key);
                }
            }
        }
    }
    Resolved { main, files: tree.files, fetched: tree.fetched }
}

} // verus!
