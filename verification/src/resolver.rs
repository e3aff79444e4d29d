//! Resolution of module imports: which modules a script needs from the
//! workspace, which from the shared cache, and how its import statements are
//! rewritten to point at local files.
use vstd::prelude::*;
use crate::path::{normalize_chars, normalized};
use crate::pattern::{find_import, import_at, Import};
use crate::text::{
    all_distinct, contains_text, lowercase, lowercase_text, replace_text, replaced,
    split_lines, starts_with_char, starts_with_namespace, strings, text_lines, to_chars, to_text,
};

verus! {

/// The module an import names: the name as written, without the script
/// extension.
pub open spec fn module_name(raw: Seq<char>) -> Seq<char> {
    replaced(raw, ".ps1"@, ""@)
}

/// Whether `m` begins with the letter `a` and a slash.
pub open spec fn in_namespace(m: Seq<char>, a: char) -> bool {
    m.len() >= 2 && m[0] == a && m[1] == '/'
}

/// Whether `m` is written as a full workspace key.
pub open spec fn is_workspace_key(m: Seq<char>) -> bool {
    in_namespace(m, 'f') || in_namespace(m, 'u')
}

/// Whether `m` is written relative to the importing script.
pub open spec fn is_relative(m: Seq<char>) -> bool {
    !is_workspace_key(m) && m.len() >= 1 && m[0] == '.'
}

/// Whether `m` names a script of the workspace.
pub open spec fn is_internal(m: Seq<char>) -> bool {
    is_workspace_key(m) || is_relative(m)
}

/// Whether the cache already holds the module `m`, whatever its letter case.
pub open spec fn is_cached(installed: Seq<Seq<char>>, m: Seq<char>) -> bool {
    installed.contains(lowercase(m))
}

/// The part of a key up to and including its last slash; empty where it has
/// none.
pub open spec fn directory_prefix(s: Seq<char>) -> Seq<char>
    decreases s.len(),
{
    if s.len() == 0 {
        s
    } else if s.last() == '/' {
        s
    } else {
        directory_prefix(s.drop_last())
    }
}

/// A key without the slashes and single-dot pieces at its end, which name
/// nothing.
pub open spec fn without_trailing_marks(s: Seq<char>) -> Seq<char>
    decreases s.len(),
{
    if s.len() > 0 && s.last() == '/' {
        without_trailing_marks(s.drop_last())
    } else if s.len() >= 2 && s.last() == '.' && s[s.len() - 2] == '/' {
        without_trailing_marks(s.take(s.len() - 2))
    } else if s.len() == 1 && s[0] == '.' {
        Seq::empty()
    } else {
        s
    }
}

/// The directory of a script, with the slash at its end: the key, less
/// what names nothing at its end, up to its last slash.
pub open spec fn directory_of(root: Seq<char>) -> Seq<char> {
    directory_prefix(without_trailing_marks(root))
}

/// The workspace key a module reference stands for: a relative reference is
/// joined to the directory of the root script and normalised.
pub open spec fn resolved_key(m: Seq<char>, root: Seq<char>) -> Seq<char> {
    if is_relative(m) {
        normalized(directory_of(root) + m)
    } else {
        m
    }
}

/// The key under which a module is tracked: the root script itself goes by
/// the reserved key `main`.
pub open spec fn canonical_key(m: Seq<char>, root: Seq<char>) -> Seq<char> {
    let k = resolved_key(m, root);
    if k == root {
        "main"@
    } else {
        k
    }
}

/// The name of the local file that holds the module `key`.
pub open spec fn local_file(key: Seq<char>) -> Seq<char> {
    replaced(key, "/"@, "."@) + ".ps1"@
}

/// The reference that an import statement uses for a local file.
pub open spec fn local_reference(file_name: Seq<char>) -> Seq<char> {
    "./"@ + file_name
}

/// The part of a path after its last slash.
pub open spec fn last_name(path: Seq<char>) -> Seq<char> {
    path.skip(directory_prefix(path).len() as int)
}

/// The name under which a directory entry of the shared cache counts as an
/// installed module: the last name of its path, in lower case.
pub fn cache_entry_name(path: &str) -> (r: String)
    ensures
        r@ == lowercase(last_name(path@)),
{
    let chars = to_chars(path);
    let mut n: usize = chars.len();
    assert(chars@.take(n as int) =~= chars@);
    while n > 0 && chars[n - 1] != '/'
        invariant
            n <= chars.len(),
            directory_prefix(chars@) == directory_prefix(chars@.take(n as int)),
        decreases n,
    {
        assert(chars@.take(n as int).drop_last() =~= chars@.take(n - 1));
        n = n - 1;
    }
    let mut name: Vec<char> = Vec::new();
    let mut i: usize = n;
    while i < chars.len()
        invariant
            n <= i <= chars.len(),
            name@ == chars@.subrange(n as int, i as int),
        decreases chars.len() - i,
    {
        name.push(chars[i]);
        i = i + 1;
        assert(name@ =~= chars@.subrange(n as int, i as int));
    }
    assert(chars@.subrange(n as int, chars.len() as int) =~= chars@.skip(n as int));
    let text = to_text(&name);
    lowercase_text(text.as_str())
}

/// Where an imported module comes from.
pub enum Target {
    /// The shared cache holds it.
    Cached,
    /// A published module that must be installed into the shared cache.
    External,
    /// A script of the workspace, tracked under `key` and stored locally as
    /// `file_name`.
    Internal { key: String, file_name: String },
}

/// The mathematical form of a `Target`.
pub enum TargetView {
    Cached,
    External,
    Internal { key: Seq<char>, file_name: Seq<char> },
}

impl View for Target {
    type V = TargetView;

    open spec fn view(&self) -> TargetView {
        match self {
            Target::Cached => TargetView::Cached,
            Target::External => TargetView::External,
            Target::Internal { key, file_name } => TargetView::Internal {
                key: key@,
                file_name: file_name@,
            },
        }
    }
}

/// Where the module that an import names as `raw` comes from.
pub open spec fn target_of(installed: Seq<Seq<char>>, root: Seq<char>, raw: Seq<char>) -> TargetView {
    let m = module_name(raw);
    if is_cached(installed, m) {
        TargetView::Cached
    } else if is_internal(m) {
        let key = canonical_key(m, root);
        TargetView::Internal { key, file_name: local_file(key) }
    } else {
        TargetView::External
    }
}

/// Joins a relative module reference to the directory of the root script and
/// normalises the result.
pub fn resolve_relative(root: &str, module: &str) -> (r: String)
    ensures
        r@ == normalized(directory_of(root@) + module@),
{
    let base = to_chars(root);
    let rest = to_chars(module);
    let mut n: usize = base.len();
    let mut go: bool = true;
    assert(base@.take(n as int) =~= base@);
    while go
        invariant
            n <= base.len(),
            without_trailing_marks(base@) == without_trailing_marks(base@.take(n as int)),
            !go ==> without_trailing_marks(base@.take(n as int)) == base@.take(n as int),
        decreases n, (if go { 1int } else { 0int }),
    {
        let ghost t = base@.take(n as int);
        if n > 0 && base[n - 1] == '/' {
            assert(t.drop_last() =~= base@.take(n - 1));
            n = n - 1;
        } else if n >= 2 && base[n - 1] == '.' && base[n - 2] == '/' {
            assert(t.take(t.len() - 2) =~= base@.take(n - 2));
            n = n - 2;
        } else if n == 1 && base[0] == '.' {
            assert(base@.take(0) =~= Seq::<char>::empty());
            n = 0;
        } else {
            go = false;
        }
    }
    let ghost stem = base@.take(n as int);
    let mut m: usize = n;
    while m > 0 && base[m - 1] != '/'
        invariant
            m <= n <= base.len(),
            directory_prefix(stem) == directory_prefix(base@.take(m as int)),
        decreases m,
    {
        assert(base@.take(m as int).drop_last() =~= base@.take(m - 1));
        m = m - 1;
    }
    let mut joined: Vec<char> = Vec::new();
    let mut i: usize = 0;
    while i < m
        invariant
            i <= m <= base.len(),
            joined@ == base@.take(i as int),
        decreases m - i,
    {
        joined.push(base[i]);
        i = i + 1;
        assert(joined@ =~= base@.take(i as int));
    }
    let mut j: usize = 0;
    while j < rest.len()
        invariant
            j <= rest.len(),
            joined@ == base@.take(m as int) + rest@.take(j as int),
        decreases rest.len() - j,
    {
        joined.push(rest[j]);
        j = j + 1;
        assert(joined@ =~= base@.take(m as int) + rest@.take(j as int));
    }
    assert(rest@.take(rest.len() as int) =~= rest@);
    let out = normalize_chars(&joined);
    to_text(&out)
}

/// The name of the local file for a module key.
pub fn local_file_name(key: &str) -> (r: String)
    ensures
        r@ == local_file(key@),
{
    let mut r = replace_text(key, "/", ".");
    r.append(".ps1");
    r
}

/// Decides where the module named by an import comes from.
pub fn classify(installed: &Vec<String>, root: &String, raw: &str) -> (r: Target)
    ensures
        r@ == target_of(strings(installed@), root@, raw@),
{
    let module = replace_text(raw, ".ps1", "");
    let lower = lowercase_text(module.as_str());
    if contains_text(installed, &lower) {
        return Target::Cached;
    }
    let full = starts_with_namespace(module.as_str(), 'f') || starts_with_namespace(module.as_str(), 'u');
    let relative = !full && starts_with_char(module.as_str(), '.');
    if !full && !relative {
        return Target::External;
    }
    let resolved = if relative {
        resolve_relative(root.as_str(), module.as_str())
    } else {
        module
    };
    let key = if resolved == *root {
        String::from_str("main")
    } else {
        resolved
    };
    let file_name = local_file_name(key.as_str());
    Target::Internal { key, file_name }
}

/// The line logged for a module that the cache holds.
pub open spec fn log_found(raw: Seq<char>) -> Seq<char> {
    "\n"@ + raw + " found in cache"@
}

/// The line logged for a module that must be installed.
pub open spec fn log_missing(raw: Seq<char>) -> Seq<char> {
    "\n"@ + raw + " not found in cache"@
}

/// The directive that installs one published module into the shared cache.
pub open spec fn directive(cache_dir: Seq<char>, raw: Seq<char>) -> Seq<char> {
    "Save-Module -Path "@ + cache_dir + " -Force "@ + raw + ";"@
}

/// An import statement with the module name exchanged for a local reference.
pub open spec fn rewritten_import(whole: Seq<char>, raw: Seq<char>, file_name: Seq<char>) -> Seq<char> {
    replaced(whole, raw, local_reference(file_name))
}

/// What stays fixed during one resolution pass.
pub struct Setting {
    /// Lower-case names of the modules in the shared cache.
    pub installed: Seq<Seq<char>>,
    /// Key of the script being run.
    pub root: Seq<char>,
    /// Directory of the shared cache.
    pub cache_dir: Seq<char>,
}

/// What a resolution pass has built up, together with the text in progress.
pub struct Progress {
    /// The text in progress.
    pub code: Seq<char>,
    /// Keys of the workspace modules met so far.
    pub visited: Seq<Seq<char>>,
    /// Names, as written, of the other modules dealt with so far.
    pub handled: Seq<Seq<char>>,
    pub install: Seq<char>,
    pub logs: Seq<char>,
    pub pending: Seq<(Seq<char>, Seq<char>)>,
}

/// The progress after one import statement. A module of the cache or a
/// published module is dealt with once in a pass, under its name as
/// written: a later import of the same name changes nothing. An import of
/// a workspace module is rewritten wherever it stands, and the module
/// becomes pending unless it was visited.
pub open spec fn after_import(p: Progress, e: Setting, whole: Seq<char>, raw: Seq<char>) -> Progress {
    match target_of(e.installed, e.root, raw) {
        TargetView::Cached => if p.handled.contains(raw) {
            p
        } else {
            Progress {
                code: p.code,
                visited: p.visited,
                handled: p.handled.push(raw),
                install: p.install,
                logs: p.logs + log_found(raw),
                pending: p.pending,
            }
        },
        TargetView::External => if p.handled.contains(raw) {
            p
        } else {
            Progress {
                code: p.code,
                visited: p.visited,
                handled: p.handled.push(raw),
                install: p.install + directive(e.cache_dir, raw),
                logs: p.logs + log_missing(raw),
                pending: p.pending,
            }
        },
        TargetView::Internal { key, file_name } => {
            let code = replaced(p.code, whole, rewritten_import(whole, raw, file_name));
            if p.visited.contains(key) {
                Progress {
                    code,
                    visited: p.visited,
                    handled: p.handled,
                    install: p.install,
                    logs: p.logs,
                    pending: p.pending,
                }
            } else {
                Progress {
                    code,
                    visited: p.visited.push(key),
                    handled: p.handled,
                    install: p.install,
                    logs: p.logs,
                    pending: p.pending.push((key, file_name)),
                }
            }
        },
    }
}

/// The progress after one line.
pub open spec fn after_line(p: Progress, e: Setting, line: Seq<char>) -> Progress {
    match import_at(line) {
        Some(found) => after_import(p, e, found.0, found.1),
        None => p,
    }
}

/// The progress after a run of lines, taken from first to last.
pub open spec fn after_lines(p: Progress, e: Setting, lines: Seq<Seq<char>>) -> Progress
    decreases lines.len(),
{
    if lines.len() == 0 {
        p
    } else {
        after_line(after_lines(p, e, lines.drop_last()), e, lines.last())
    }
}

/// Whether `b` continues `a`: nothing visited, dealt with or pending is
/// lost, and every module that became pending had not been visited before.
pub open spec fn continues(a: Progress, b: Progress) -> bool {
    &&& a.visited.is_prefix_of(b.visited)
    &&& a.handled.is_prefix_of(b.handled)
    &&& a.pending.is_prefix_of(b.pending)
    &&& forall|i: int| a.pending.len() <= i < b.pending.len() ==> !a.visited.contains(#[trigger] b.pending[i].0)
}

/// What holds of the progress of a pass at every moment: the reserved key
/// is visited, no module is visited or dealt with twice, every pending
/// module is visited, and no module is pending twice.
pub open spec fn sound(p: Progress) -> bool {
    &&& p.visited.contains("main"@)
    &&& p.visited.no_duplicates()
    &&& p.handled.no_duplicates()
    &&& forall|i: int| 0 <= i < p.pending.len() ==> p.visited.contains(#[trigger] p.pending[i].0)
    &&& forall|i: int, j: int|
        0 <= i < j < p.pending.len() ==> #[trigger] p.pending[i].0 != #[trigger] p.pending[j].0
}

/// A workspace module that still has to be fetched.
pub struct Pending {
    /// Key of the module in the script store.
    pub key: String,
    /// Name of the local file that will hold it.
    pub file_name: String,
}

/// A file to be written beside the main script.
pub struct LocalFile {
    pub name: String,
    pub content: String,
}

/// The view of an optional string.
pub open spec fn source_text(o: Option<String>) -> Option<Seq<char>> {
    match o {
        Some(s) => Some(s@),
        None => None,
    }
}

/// The keys and file names of a list of pending modules.
pub open spec fn pending_pairs(v: Seq<Pending>) -> Seq<(Seq<char>, Seq<char>)> {
    Seq::new(v.len(), |i: int| (v[i].key@, v[i].file_name@))
}

/// The state of one resolution pass.
pub struct Resolution {
    /// Lower-case names of the modules in the shared cache.
    pub installed: Vec<String>,
    /// Key of the script being run.
    pub root: String,
    /// Directory of the shared cache.
    pub cache_dir: String,
    /// Keys of the workspace modules met so far.
    pub visited: Vec<String>,
    /// Names, as written, of the cached and published modules dealt with
    /// so far.
    pub handled: Vec<String>,
    /// Install directives gathered so far.
    pub install: String,
    /// Log text gathered so far.
    pub logs: String,
    /// Workspace modules met and not yet fetched.
    pub pending: Vec<Pending>,
}

impl Resolution {
    /// What stays fixed during the pass.
    pub open spec fn setting(&self) -> Setting {
        Setting { installed: strings(self.installed@), root: self.root@, cache_dir: self.cache_dir@ }
    }

    /// What the pass has built up, beside a text in progress.
    pub open spec fn progress(&self, code: Seq<char>) -> Progress {
        Progress {
            code,
            visited: strings(self.visited@),
            handled: strings(self.handled@),
            install: self.install@,
            logs: self.logs@,
            pending: pending_pairs(self.pending@),
        }
    }

    /// The reserved key is visited, no module is visited or pending twice,
    /// and every pending module is visited.
    pub open spec fn wf(&self) -> bool {
        sound(self.progress(Seq::empty()))
    }

    /// Tells whether the state is well formed, as it is for every state
    /// that `new` made and only the methods below have changed.
    pub fn is_wf(&self) -> (r: bool)
        ensures
            r == self.wf(),
    {
        let ghost p = self.progress(Seq::empty());
        let main = String::from_str("main");
        if !contains_text(&self.visited, &main) {
            return false;
        }
        if !all_distinct(&self.visited) {
            return false;
        }
        if !all_distinct(&self.handled) {
            return false;
        }
        let mut i: usize = 0;
        while i < self.pending.len()
            invariant
                i <= self.pending.len(),
                p == self.progress(Seq::empty()),
                forall|a: int| 0 <= a < i ==> p.visited.contains(#[trigger] p.pending[a].0),
                forall|a: int, b: int| 0 <= a < b < i ==> #[trigger] p.pending[a].0 != #[trigger] p.pending[b].0,
            decreases self.pending.len() - i,
        {
            assert(p.pending[i as int].0 == self.pending[i as int].key@);
            if !contains_text(&self.visited, &self.pending[i].key) {
                return false;
            }
            let mut j: usize = 0;
            while j < i
                invariant
                    j <= i < self.pending.len(),
                    p == self.progress(Seq::empty()),
                    forall|a: int| 0 <= a < j ==> #[trigger] p.pending[a].0 != p.pending[i as int].0,
                decreases i - j,
            {
                assert(p.pending[j as int].0 == self.pending[j as int].key@);
                if self.pending[j].key == self.pending[i].key {
                    assert(p.pending[j as int].0 == p.pending[i as int].0);
                    return false;
                }
                j = j + 1;
            }
            i = i + 1;
        }
        true
    }

    /// Starts a pass for the script `root`: only the reserved key is visited.
    pub fn new(installed: Vec<String>, root: String, cache_dir: String) -> (r: Resolution)
        ensures
            r.wf(),
            r.setting() == (Setting { installed: strings(installed@), root: root@, cache_dir: cache_dir@ }),
            r.progress(Seq::empty()).visited == seq!["main"@],
            r.handled@.len() == 0,
            r.install@.len() == 0,
            r.logs@.len() == 0,
            r.pending@.len() == 0,
    {
        let mut visited: Vec<String> = Vec::new();
        visited.push(String::from_str("main"));
        let r = Resolution {
            installed,
            root,
            cache_dir,
            visited,
            handled: Vec::new(),
            install: String::new(),
            logs: String::new(),
            pending: Vec::new(),
        };
        assert(strings(r.visited@) =~= seq!["main"@]);
        assert(strings(r.visited@)[0] == "main"@);
        r
    }

    /// Takes one import statement into account and returns the text in
    /// progress with the statement rewritten where it names a workspace
    /// module.
    pub fn note_import(&mut self, code: String, import: &Import) -> (r: String)
        requires
            old(self).wf(),
        ensures
            final(self).wf(),
            final(self).setting() == old(self).setting(),
            final(self).progress(r@) == after_import(
                old(self).progress(code@),
                old(self).setting(),
                import.whole@,
                import.name@,
            ),
            continues(old(self).progress(code@), final(self).progress(r@)),
    {
        let raw = import.name.as_str();
        let target = classify(&self.installed, &self.root, raw);
        let r = match target {
            Target::Cached => {
                if !contains_text(&self.handled, &import.name) {
                    self.handled.push(import.name.clone());
                    assert(strings(self.handled@) =~= strings(old(self).handled@).push(raw@));
                    self.logs.append("\n");
                    self.logs.append(raw);
                    self.logs.append(" found in cache");
                    assert(self.logs@ =~= old(self).logs@ + log_found(raw@));
                }
                code
            },
            Target::External => {
                if !contains_text(&self.handled, &import.name) {
                    self.handled.push(import.name.clone());
                    assert(strings(self.handled@) =~= strings(old(self).handled@).push(raw@));
                    self.logs.append("\n");
                    self.logs.append(raw);
                    self.logs.append(" not found in cache");
                    assert(self.logs@ =~= old(self).logs@ + log_missing(raw@));
                    self.install.append("Save-Module -Path ");
                    self.install.append(self.cache_dir.as_str());
                    self.install.append(" -Force ");
                    self.install.append(raw);
                    self.install.append(";");
                    assert(self.install@ =~= old(self).install@ + directive(self.cache_dir@, raw@));
                }
                code
            },
            Target::Internal { key, file_name } => {
                let mut reference = String::from_str("./");
                reference.append(file_name.as_str());
                let statement = replace_text(import.whole.as_str(), raw, reference.as_str());
                let out = replace_text(code.as_str(), import.whole.as_str(), statement.as_str());
                if !contains_text(&self.visited, &key) {
                    let ghost before = strings(self.visited@);
                    let ghost waiting = pending_pairs(self.pending@);
                    self.visited.push(key.clone());
                    self.pending.push(Pending { key, file_name });
                    proof {
                        assert(strings(self.visited@) =~= before.push(key@));
                        assert(pending_pairs(self.pending@) =~= waiting.push((key@, file_name@)));
                    }
                }
                out
            },
        };
        proof {
            let start = old(self).progress(code@);
            lemma_sound_whatever_code(old(self).progress(Seq::empty()), start);
            lemma_import_keeps_sound(start, old(self).setting(), import.whole@, import.name@);
            lemma_import_continues(start, old(self).setting(), import.whole@, import.name@);
            lemma_sound_whatever_code(self.progress(r@), self.progress(Seq::empty()));
        }
        r
    }

    /// Scans a script line by line, takes every import statement into
    /// account and returns the script with the imports of workspace modules
    /// rewritten to local references.
    pub fn scan(&mut self, content: &str) -> (r: String)
        requires
            old(self).wf(),
        ensures
            final(self).wf(),
            final(self).setting() == old(self).setting(),
            final(self).progress(r@) == after_lines(
                old(self).progress(content@),
                old(self).setting(),
                text_lines(content@),
            ),
            continues(old(self).progress(content@), final(self).progress(r@)),
    {
        let lines = split_lines(content);
        let mut code = String::from_str(content);
        let ghost start = self.progress(content@);
        let ghost e = self.setting();
        let mut i: usize = 0;
        assert(strings(lines@).take(0) =~= Seq::<Seq<char>>::empty());
        while i < lines.len()
            invariant
                i <= lines.len(),
                self.wf(),
                self.setting() == e,
                self.progress(code@) == after_lines(start, e, strings(lines@).take(i as int)),
                continues(start, self.progress(code@)),
            decreases lines.len() - i,
        {
            proof {
                let all = strings(lines@);
                assert(all.take(i + 1).drop_last() =~= all.take(i as int));
                assert(all.take(i + 1).last() == lines@[i as int]@);
            }
            let ghost mid = self.progress(code@);
            match find_import(lines[i].as_str()) {
                Some(import) => {
                    code = self.note_import(code, &import);
                    proof {
                        lemma_continues_chain(start, mid, self.progress(code@));
                    }
                },
                None => {},
            }
            i = i + 1;
        }
        assert(strings(lines@).take(lines.len() as int) =~= strings(lines@));
        code
    }

    /// Hands out one module that still has to be fetched, if any is left.
    pub fn take_pending(&mut self) -> (r: Option<Pending>)
        requires
            old(self).wf(),
        ensures
            final(self).wf(),
            final(self).setting() == old(self).setting(),
            final(self).visited == old(self).visited,
            final(self).handled == old(self).handled,
            final(self).install == old(self).install,
            final(self).logs == old(self).logs,
            match r {
                Some(p) => old(self).pending@.len() > 0 && p == old(self).pending@.last()
                    && final(self).pending@ == old(self).pending@.drop_last()
                    && pending_pairs(final(self).pending@) == pending_pairs(old(self).pending@).drop_last(),
                None => old(self).pending@.len() == 0 && final(self).pending@.len() == 0,
            },
    {
        let r = self.pending.pop();
        proof {
            if r is Some {
                assert(pending_pairs(self.pending@) =~= pending_pairs(old(self).pending@).drop_last());
                lemma_without_latest_sound(old(self).progress(Seq::empty()));
                assert(self.progress(Seq::empty()) == without_latest(old(self).progress(Seq::empty())));
            }
        }
        r
    }

    /// Takes in what the store holds for a module that was pending: where
    /// there is a script and no file of the module's name yet, the script
    /// is scanned in turn and becomes that file; else nothing changes.
    pub fn take_source(&mut self, pending: Pending, source: Option<String>, file_exists: bool) -> (r: Option<
        LocalFile,
    >)
        requires
            old(self).wf(),
        ensures
            final(self).wf(),
            final(self).setting() == old(self).setting(),
            r is Some <==> source is Some && !file_exists,
            match r {
                Some(f) => f.name@ == pending.file_name@ && final(self).progress(f.content@) == after_lines(
                    old(self).progress(source_text(source)->0),
                    old(self).setting(),
                    text_lines(source_text(source)->0),
                ) && continues(old(self).progress(source_text(source)->0), final(self).progress(f.content@)),
                None => *final(self) == *old(self),
            },
    {
        match source {
            Some(text) => {
                if file_exists {
                    None
                } else {
                    let code = self.scan(text.as_str());
                    Some(LocalFile { name: pending.file_name, content: code })
                }
            },
            None => None,
        }
    }

    /// The arguments of the one interpreter call that installs every
    /// published module gathered so far; `None` where there is none.
    pub fn install_command(&self) -> (r: Option<Vec<String>>)
        ensures
            match r {
                Some(v) => self.install@.len() > 0 && strings(v@) == seq!["-Command"@, self.install@],
                None => self.install@.len() == 0,
            },
    {
        if self.install.as_str().unicode_len() == 0 {
            None
        } else {
            let mut v: Vec<String> = Vec::new();
            v.push(String::from_str("-Command"));
            v.push(self.install.clone());
            assert(strings(v@) =~= seq!["-Command"@, self.install@]);
            Some(v)
        }
    }
}

/// Continuing is transitive.
pub proof fn lemma_continues_chain(a: Progress, b: Progress, c: Progress)
    requires
        continues(a, b),
        continues(b, c),
    ensures
        continues(a, c),
{
    assert forall|i: int| a.pending.len() <= i < c.pending.len() implies !a.visited.contains(#[trigger] c.pending[i].0) by {
        if i < b.pending.len() {
            assert(c.pending[i] == b.pending[i]);
        } else {
            if a.visited.contains(c.pending[i].0) {
                let k = choose|k: int| 0 <= k < a.visited.len() && a.visited[k] == c.pending[i].0;
                assert(b.visited[k] == c.pending[i].0);
            }
        }
    }
}

/// One import statement never loses what was visited or pending, and makes
/// a module pending only if it had not been visited.
pub proof fn lemma_import_continues(p: Progress, e: Setting, whole: Seq<char>, raw: Seq<char>)
    ensures
        continues(p, after_import(p, e, whole, raw)),
{
    let q = after_import(p, e, whole, raw);
    match target_of(e.installed, e.root, raw) {
        TargetView::Internal { key, file_name } => {
            if !p.visited.contains(key) {
                assert(q.pending[p.pending.len() as int].0 == key);
            }
        },
        _ => {},
    }
}

/// Over any run of lines nothing visited or pending is lost, and a module
/// becomes pending, and so is fetched, only if it had not been visited: no
/// module is asked for twice, whether the imports form a chain, a diamond or
/// a cycle.
pub proof fn lemma_lines_continue(p: Progress, e: Setting, lines: Seq<Seq<char>>)
    ensures
        continues(p, after_lines(p, e, lines)),
    decreases lines.len(),
{
    if lines.len() > 0 {
        let mid = after_lines(p, e, lines.drop_last());
        lemma_lines_continue(p, e, lines.drop_last());
        match import_at(lines.last()) {
            Some(found) => {
                lemma_import_continues(mid, e, found.0, found.1);
                lemma_continues_chain(p, mid, after_import(mid, e, found.0, found.1));
            },
            None => {},
        }
    }
}

/// The progress `p` without its latest pending module.
pub open spec fn without_latest(p: Progress) -> Progress {
    Progress {
        code: p.code,
        visited: p.visited,
        handled: p.handled,
        install: p.install,
        logs: p.logs,
        pending: p.pending.drop_last(),
    }
}

/// Soundness does not depend on the text in progress, the log or the
/// directives.
pub proof fn lemma_sound_whatever_code(p: Progress, q: Progress)
    requires
        sound(p),
        p.visited == q.visited,
        p.handled == q.handled,
        p.pending == q.pending,
    ensures
        sound(q),
{
}

/// Handing out the latest pending module keeps the progress sound.
pub proof fn lemma_without_latest_sound(p: Progress)
    requires
        sound(p),
        p.pending.len() > 0,
    ensures
        sound(without_latest(p)),
{
    let q = without_latest(p);
    assert forall|i: int| 0 <= i < q.pending.len() implies q.visited.contains(#[trigger] q.pending[i].0) by {
        assert(q.pending[i] == p.pending[i]);
    }
    assert forall|i: int, j: int| 0 <= i < j < q.pending.len() implies #[trigger] q.pending[i].0
        != #[trigger] q.pending[j].0 by {
        assert(q.pending[i] == p.pending[i]);
        assert(q.pending[j] == p.pending[j]);
    }
}

/// One import statement keeps the progress sound.
pub proof fn lemma_import_keeps_sound(p: Progress, e: Setting, whole: Seq<char>, raw: Seq<char>)
    requires
        sound(p),
    ensures
        sound(after_import(p, e, whole, raw)),
{
    let q = after_import(p, e, whole, raw);
    match target_of(e.installed, e.root, raw) {
        TargetView::Internal { key, file_name } => {
            if !p.visited.contains(key) {
                assert(q.visited[p.visited.len() as int] == key);
                assert forall|x: Seq<char>| p.visited.contains(x) implies q.visited.contains(x) by {
                    let i = choose|i: int| 0 <= i < p.visited.len() && p.visited[i] == x;
                    assert(q.visited[i] == x);
                }
                assert forall|i: int| 0 <= i < q.pending.len() implies q.visited.contains(#[trigger] q.pending[i].0) by {
                    if i < p.pending.len() {
                        assert(q.pending[i] == p.pending[i]);
                        assert(p.visited.contains(p.pending[i].0));
                    }
                }
                assert forall|i: int, j: int| 0 <= i < j < q.pending.len() implies #[trigger] q.pending[i].0
                    != #[trigger] q.pending[j].0 by {
                    assert(q.pending[i] == p.pending[i]);
                    if j < p.pending.len() {
                        assert(q.pending[j] == p.pending[j]);
                    } else {
                        assert(p.visited.contains(p.pending[i].0));
                    }
                }
            }
        },
        _ => {},
    }
}

/// Any run of lines keeps the progress sound.
pub proof fn lemma_lines_keep_sound(p: Progress, e: Setting, lines: Seq<Seq<char>>)
    requires
        sound(p),
    ensures
        sound(after_lines(p, e, lines)),
    decreases lines.len(),
{
    if lines.len() > 0 {
        lemma_lines_keep_sound(p, e, lines.drop_last());
        match import_at(lines.last()) {
            Some(found) => {
                lemma_import_keeps_sound(after_lines(p, e, lines.drop_last()), e, found.0, found.1);
            },
            None => {},
        }
    }
}

/// A module that has been visited is not made pending by any later line.
pub proof fn lemma_visited_not_pending_again(p: Progress, e: Setting, lines: Seq<Seq<char>>, key: Seq<char>, i: int)
    requires
        p.visited.contains(key),
        p.pending.len() <= i < after_lines(p, e, lines).pending.len(),
    ensures
        after_lines(p, e, lines).pending[i].0 != key,
{
    lemma_lines_continue(p, e, lines);
}

/// A script that imports itself, by its own key or by a relative reference
/// that resolves to it, is tracked under the reserved key: once that key is
/// visited the import is rewritten to the main file and nothing is fetched.
pub proof fn lemma_self_import(p: Progress, e: Setting, whole: Seq<char>, raw: Seq<char>)
    requires
        !is_cached(e.installed, module_name(raw)),
        is_internal(module_name(raw)),
        resolved_key(module_name(raw), e.root) == e.root,
        p.visited.contains("main"@),
    ensures
        target_of(e.installed, e.root, raw) == (TargetView::Internal {
            key: "main"@,
            file_name: local_file("main"@),
        }),
        after_import(p, e, whole, raw).pending == p.pending,
        after_import(p, e, whole, raw).visited == p.visited,
        after_import(p, e, whole, raw).install == p.install,
{
}

/// An import of a module that the cache holds, under any letter case,
/// changes neither the install directives nor the script, and nothing
/// becomes pending; it is logged the first time its name is met.
pub proof fn lemma_cached_import(p: Progress, e: Setting, whole: Seq<char>, raw: Seq<char>)
    requires
        e.installed.contains(lowercase(module_name(raw))),
    ensures
        after_import(p, e, whole, raw).install == p.install,
        after_import(p, e, whole, raw).code == p.code,
        after_import(p, e, whole, raw).pending == p.pending,
        after_import(p, e, whole, raw).visited == p.visited,
        after_import(p, e, whole, raw).logs == if p.handled.contains(raw) {
            p.logs
        } else {
            p.logs + log_found(raw)
        },
{
}

/// An import of a cached or published module whose name was dealt with
/// before in the pass changes nothing at all.
pub proof fn lemma_repeated_import(p: Progress, e: Setting, whole: Seq<char>, raw: Seq<char>)
    requires
        p.handled.contains(raw),
        is_cached(e.installed, module_name(raw)) || !is_internal(module_name(raw)),
    ensures
        after_import(p, e, whole, raw) == p,
{
}

/// The module name, as written, that a line imports; empty where the line
/// imports nothing.
pub open spec fn imported_name(line: Seq<char>) -> Seq<char> {
    match import_at(line) {
        Some(found) => found.1,
        None => Seq::empty(),
    }
}

/// Where every import of a run of lines names a module that the cache
/// holds, the install directives stay as they were.
pub proof fn lemma_cached_lines(p: Progress, e: Setting, lines: Seq<Seq<char>>)
    requires
        forall|i: int| 0 <= i < lines.len() && import_at(#[trigger] lines[i]) is Some ==> is_cached(
            e.installed,
            module_name(imported_name(lines[i])),
        ),
    ensures
        after_lines(p, e, lines).install == p.install,
    decreases lines.len(),
{
    if lines.len() > 0 {
        let rest = lines.drop_last();
        assert forall|i: int| 0 <= i < rest.len() && import_at(#[trigger] rest[i]) is Some implies is_cached(
            e.installed,
            module_name(imported_name(rest[i])),
        ) by {
            assert(rest[i] == lines[i]);
        }
        lemma_cached_lines(p, e, rest);
        assert(lines.last() == lines[lines.len() - 1]);
    }
}

/// The first import of a published module that the cache lacks adds
/// exactly one directive, at the end, and changes neither the script nor
/// what is pending.
pub proof fn lemma_external_import(p: Progress, e: Setting, whole: Seq<char>, raw: Seq<char>)
    requires
        !is_cached(e.installed, module_name(raw)),
        !is_internal(module_name(raw)),
        !p.handled.contains(raw),
    ensures
        after_import(p, e, whole, raw).install == p.install + directive(e.cache_dir, raw),
        after_import(p, e, whole, raw).handled == p.handled.push(raw),
        after_import(p, e, whole, raw).code == p.code,
        after_import(p, e, whole, raw).pending == p.pending,
        after_import(p, e, whole, raw).visited == p.visited,
{
}

/// Two imports of published modules that the cache lacks, neither dealt
/// with before, add one directive each where the names differ, in the
/// order of the imports, and one directive in all where the names are the
/// same, to the one text that is later run as a single command.
pub proof fn lemma_two_external_imports(
    p: Progress,
    e: Setting,
    whole_a: Seq<char>,
    raw_a: Seq<char>,
    whole_b: Seq<char>,
    raw_b: Seq<char>,
)
    requires
        !is_cached(e.installed, module_name(raw_a)),
        !is_internal(module_name(raw_a)),
        !is_cached(e.installed, module_name(raw_b)),
        !is_internal(module_name(raw_b)),
        !p.handled.contains(raw_a),
        !p.handled.contains(raw_b),
    ensures
        after_import(after_import(p, e, whole_a, raw_a), e, whole_b, raw_b).install == if raw_a == raw_b {
            p.install + directive(e.cache_dir, raw_a)
        } else {
            p.install + directive(e.cache_dir, raw_a) + directive(e.cache_dir, raw_b)
        },
{
    let mid = after_import(p, e, whole_a, raw_a);
    assert(mid.handled == p.handled.push(raw_a));
    assert(mid.handled[p.handled.len() as int] == raw_a);
    if raw_a != raw_b {
        if mid.handled.contains(raw_b) {
            let i = choose|i: int| 0 <= i < mid.handled.len() && mid.handled[i] == raw_b;
            if i < p.handled.len() {
                assert(p.handled[i] == raw_b);
            }
        }
    }
}

} // verus!
