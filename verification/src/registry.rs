//! Registry rules of the `gpuicn` installer: component names, safe source
//! paths and module names, dependency order, installed module declarations
//! and what an installation writes.
use crate::segmentation::string_from_chars;
use crate::text::chars_of;
use vstd::prelude::*;

verus! {

/// Why a registry operation was refused.
#[derive(Clone, Debug, PartialEq, Eq)]
pub enum RegistryError {
    /// A component name outside `[a-z][a-z0-9_-]*`.
    InvalidName(String),
    /// A source path that is absolute, empty-segmented, relative-dotted or uses `\`.
    UnsafePath(String),
    /// A source path that does not name a `.rs` file.
    NotRustSource(String),
    /// A file stem that is not a plain lowercase Rust module name.
    InvalidModule(String),
    /// A dependency that the registry does not provide.
    UnknownDependency(String),
    /// A dependency that leads back to a component being resolved.
    DependencyCycle(String),
    /// The registry returned another component than the one requested: (requested, returned).
    NameMismatch(String, String),
    /// A component without source files or with more than 256.
    FileCount(String),
    /// A source file of a kind other than `registry:file`.
    FileKind(String),
    /// A registry source without inline content, by module.
    MissingContent(String),
    /// Source text that does not parse as a Rust file, by module.
    InvalidSource(String),
    /// Two components ship different text for one shared module.
    ConflictingModule(String),
    /// The existing `mod.rs` does not parse as a Rust file.
    UnparsableModFile,
    /// An installed module declared with inline content or an alternate path.
    InlineModule(String),
    /// Nothing to install.
    NoSources,
    /// A component name that is invalid or has no source directory.
    InvalidComponent(String),
    /// Two files of one component install as the same module.
    DuplicateModule(String),
    /// A registry item larger than the limit.
    TooLarge,
    /// A registry location that is neither HTTP(S) nor a local directory.
    InvalidLocation(String),
    /// Component names given together with `--all`.
    NamesWithAll,
    /// No component named and `--all` not given.
    NothingRequested,
    /// A configuration file of another version.
    UnsupportedVersion(u32),
}

/// `RegistryError` as plain values.
pub enum ErrorView {
    InvalidName(Seq<char>),
    UnsafePath(Seq<char>),
    NotRustSource(Seq<char>),
    InvalidModule(Seq<char>),
    UnknownDependency(Seq<char>),
    DependencyCycle(Seq<char>),
    NameMismatch(Seq<char>, Seq<char>),
    FileCount(Seq<char>),
    FileKind(Seq<char>),
    MissingContent(Seq<char>),
    InvalidSource(Seq<char>),
    ConflictingModule(Seq<char>),
    UnparsableModFile,
    InlineModule(Seq<char>),
    NoSources,
    InvalidComponent(Seq<char>),
    DuplicateModule(Seq<char>),
    TooLarge,
    InvalidLocation(Seq<char>),
    NamesWithAll,
    NothingRequested,
    UnsupportedVersion(u32),
}

impl View for RegistryError {
    type V = ErrorView;

    open spec fn view(&self) -> ErrorView {
        match self {
            RegistryError::InvalidName(s) => ErrorView::InvalidName(s@),
            RegistryError::UnsafePath(s) => ErrorView::UnsafePath(s@),
            RegistryError::NotRustSource(s) => ErrorView::NotRustSource(s@),
            RegistryError::InvalidModule(s) => ErrorView::InvalidModule(s@),
            RegistryError::UnknownDependency(s) => ErrorView::UnknownDependency(s@),
            RegistryError::DependencyCycle(s) => ErrorView::DependencyCycle(s@),
            RegistryError::NameMismatch(a, b) => ErrorView::NameMismatch(a@, b@),
            RegistryError::FileCount(s) => ErrorView::FileCount(s@),
            RegistryError::FileKind(s) => ErrorView::FileKind(s@),
            RegistryError::MissingContent(s) => ErrorView::MissingContent(s@),
            RegistryError::InvalidSource(s) => ErrorView::InvalidSource(s@),
            RegistryError::ConflictingModule(s) => ErrorView::ConflictingModule(s@),
            RegistryError::UnparsableModFile => ErrorView::UnparsableModFile,
            RegistryError::InlineModule(s) => ErrorView::InlineModule(s@),
            RegistryError::NoSources => ErrorView::NoSources,
            RegistryError::InvalidComponent(s) => ErrorView::InvalidComponent(s@),
            RegistryError::DuplicateModule(s) => ErrorView::DuplicateModule(s@),
            RegistryError::TooLarge => ErrorView::TooLarge,
            RegistryError::InvalidLocation(s) => ErrorView::InvalidLocation(s@),
            RegistryError::NamesWithAll => ErrorView::NamesWithAll,
            RegistryError::NothingRequested => ErrorView::NothingRequested,
            RegistryError::UnsupportedVersion(v) => ErrorView::UnsupportedVersion(*v),
        }
    }
}

/// `[a-z]`.
pub open spec fn is_lower(c: char) -> bool {
    'a' <= c <= 'z'
}

/// `[0-9]`.
pub open spec fn is_digit(c: char) -> bool {
    '0' <= c <= '9'
}

/// A registry component name: a lowercase ASCII letter followed by lowercase
/// letters, digits, `-` and `_`.
pub open spec fn is_valid_name(name: Seq<char>) -> bool {
    &&& name.len() > 0
    &&& is_lower(name[0])
    &&& forall|i: int|
        0 <= i < name.len() ==> {
            let c = #[trigger] name[i];
            is_lower(c) || is_digit(c) || c == '-' || c == '_'
        }
}

/// Whether `name` is a valid component name.
pub fn valid_name(name: &str) -> (valid: bool)
    ensures
        valid == is_valid_name(name@),
{
    let chars = chars_of(name);
    if chars.len() == 0 || !('a' <= chars[0] && chars[0] <= 'z') {
        return false;
    }
    let mut i: usize = 0;
    while i < chars.len()
        invariant
            chars@ == name@,
            i <= chars@.len(),
            forall|j: int|
                0 <= j < i ==> {
                    let c = #[trigger] chars@[j];
                    is_lower(c) || is_digit(c) || c == '-' || c == '_'
                },
        decreases chars@.len() - i,
    {
        let c = chars[i];
        if !(('a' <= c && c <= 'z') || ('0' <= c && c <= '9') || c == '-' || c == '_') {
            return false;
        }
        i = i + 1;
    }
    true
}

/// The segments of `rest` between `/` separators, the first one continuing `current`.
pub open spec fn split_from(rest: Seq<char>, current: Seq<char>) -> Seq<Seq<char>>
    decreases rest.len(),
{
    if rest.len() == 0 {
        seq![current]
    } else if rest[0] == '/' {
        seq![current] + split_from(rest.drop_first(), Seq::empty())
    } else {
        split_from(rest.drop_first(), current.push(rest[0]))
    }
}

/// The segments of a `/`-separated path (`str::split('/')`).
pub open spec fn segments(path: Seq<char>) -> Seq<Seq<char>> {
    split_from(path, Seq::empty())
}

/// A path segment other than empty, `.` or `..`.
pub open spec fn is_plain_segment(segment: Seq<char>) -> bool {
    segment.len() > 0 && segment != seq!['.'] && segment != seq!['.', '.']
}

/// A relative path made only of plain segments, without backslashes.
pub open spec fn is_safe_path(path: Seq<char>) -> bool {
    &&& !path.contains('\\')
    &&& forall|i: int| 0 <= i < segments(path).len() ==> is_plain_segment(#[trigger] segments(path)[i])
}

/// `.rs`.
pub open spec fn rust_suffix() -> Seq<char> {
    seq!['.', 'r', 's']
}

/// The file stem of the last segment when that segment ends in `.rs`.
pub open spec fn rust_stem(path: Seq<char>) -> Option<Seq<char>> {
    let last = segments(path).last();
    if last.len() >= 3 && last.skip(last.len() - 3) == rust_suffix() {
        Some(last.take(last.len() - 3))
    } else {
        None
    }
}

/// Whether `syn` parses `text` as one Rust identifier that is not a keyword.
pub uninterp spec fn is_rust_ident(text: Seq<char>) -> bool;

/// The words that `syn` refuses as identifiers: `_` and the keywords it lists.
pub open spec fn is_reserved_word(text: Seq<char>) -> bool {
    text == "_"@
        || text == "abstract"@
        || text == "as"@
        || text == "async"@
        || text == "await"@
        || text == "become"@
        || text == "box"@
        || text == "break"@
        || text == "const"@
        || text == "continue"@
        || text == "crate"@
        || text == "do"@
        || text == "dyn"@
        || text == "else"@
        || text == "enum"@
        || text == "extern"@
        || text == "false"@
        || text == "final"@
        || text == "fn"@
        || text == "for"@
        || text == "if"@
        || text == "impl"@
        || text == "in"@
        || text == "let"@
        || text == "loop"@
        || text == "macro"@
        || text == "match"@
        || text == "mod"@
        || text == "move"@
        || text == "mut"@
        || text == "override"@
        || text == "priv"@
        || text == "pub"@
        || text == "ref"@
        || text == "return"@
        || text == "Self"@
        || text == "self"@
        || text == "static"@
        || text == "struct"@
        || text == "super"@
        || text == "trait"@
        || text == "true"@
        || text == "try"@
        || text == "type"@
        || text == "typeof"@
        || text == "unsafe"@
        || text == "unsized"@
        || text == "use"@
        || text == "virtual"@
        || text == "where"@
        || text == "while"@
        || text == "yield"@
}

/// Whether `text` holds only lowercase ASCII letters, digits and `_`.
pub open spec fn is_plain_word(text: Seq<char>) -> bool {
    forall|i: int|
        0 <= i < text.len() ==> {
            let c = #[trigger] text[i];
            is_lower(c) || is_digit(c) || c == '_'
        }
}

/// Which plain words `syn` accepts as identifiers: non-empty, not starting
/// with a digit, and not reserved.
pub open spec fn is_plain_ident(text: Seq<char>) -> bool {
    &&& text.len() > 0
    &&& !is_digit(text[0])
    &&& !is_reserved_word(text)
}

/// A lowercase module name that Rust accepts and that is not `mod`.
pub open spec fn is_module_name(name: Seq<char>) -> bool {
    &&& name != seq!['m', 'o', 'd']
    &&& is_plain_word(name)
    &&& is_plain_ident(name)
}

/// What `module_name` gives for a path.
pub open spec fn module_name_result(path: Seq<char>) -> Result<Seq<char>, ()> {
    if !is_safe_path(path) {
        Err(())
    } else {
        match rust_stem(path) {
            Some(name) => if is_module_name(name) {
                Ok(name)
            } else {
                Err(())
            },
            None => Err(()),
        }
    }
}

/// Why `module_name` refuses a path it refuses.
pub open spec fn module_name_error(path: Seq<char>) -> ErrorView {
    if !is_safe_path(path) {
        ErrorView::UnsafePath(path)
    } else {
        match rust_stem(path) {
            Some(stem) => ErrorView::InvalidModule(stem),
            None => ErrorView::NotRustSource(path),
        }
    }
}

/// Calls `syn::parse_str::<syn::Ident>` and reports whether it succeeded.
/// In general the contract only names the result. For a plain word it states
/// it: such a word lexes as one identifier unless it starts with a digit (a
/// number literal) or is empty, and `syn` then refuses exactly `_` and the
/// keywords of its list.
#[verifier::external_body]
fn parses_as_ident(text: &str) -> (ok: bool)
    ensures
        ok == is_rust_ident(text@),
        is_plain_word(text@) ==> (ok == is_plain_ident(text@)),
{
    syn::parse_str::<syn::Ident>(text).is_ok()
}

/// Whether every segment of `path` is plain and no backslash occurs.
/// All segments of `done` followed by `last` are plain exactly when each part is.
proof fn lemma_all_plain_push(done: Seq<Seq<char>>, last: Seq<char>)
    ensures
        (forall|j: int| 0 <= j < done.push(last).len() ==> is_plain_segment(#[trigger] done.push(last)[j]))
            <==> ((forall|j: int| 0 <= j < done.len() ==> is_plain_segment(#[trigger] done[j]))
            && is_plain_segment(last)),
{
    let d = done.push(last);
    if forall|j: int| 0 <= j < d.len() ==> is_plain_segment(#[trigger] d[j]) {
        assert(d[done.len() as int] == last);
        assert forall|j: int| 0 <= j < done.len() implies is_plain_segment(#[trigger] done[j]) by {
            assert(d[j] == done[j]);
        }
    }
    if (forall|j: int| 0 <= j < done.len() ==> is_plain_segment(#[trigger] done[j])) && is_plain_segment(
        last,
    ) {
        assert forall|j: int| 0 <= j < d.len() implies is_plain_segment(#[trigger] d[j]) by {
            if j < done.len() {
                assert(d[j] == done[j]);
            }
        }
    }
}

fn safe_path(path: &[char]) -> (safe: bool)
    ensures
        safe == is_safe_path(path@),
{
    let mut current: Vec<char> = Vec::new();
    let mut i: usize = 0;
    let mut no_backslash = true;
    let mut plain_so_far = true;
    let ghost mut done: Seq<Seq<char>> = Seq::empty();
    proof {
        assert(path@.skip(0) =~= path@);
    }
    while i < path.len()
        invariant
            i <= path@.len(),
            segments(path@) == done + split_from(path@.skip(i as int), current@),
            no_backslash == forall|j: int| 0 <= j < i ==> path@[j] != '\\',
            plain_so_far == forall|j: int| 0 <= j < done.len() ==> is_plain_segment(#[trigger] done[j]),
        decreases path@.len() - i,
    {
        let c = path[i];
        proof {
            assert(path@.skip(i as int).drop_first() =~= path@.skip(i as int + 1));
            assert(path@.skip(i as int)[0] == c);
        }
        if c == '\\' {
            no_backslash = false;
        }
        if c == '/' {
            let plain = plain_segment(current.as_slice());
            proof {
                assert(done.push(current@) + split_from(path@.skip(i as int + 1), Seq::empty())
                    =~= done + (seq![current@] + split_from(path@.skip(i as int + 1), Seq::empty())));
                lemma_all_plain_push(done, current@);
                done = done.push(current@);
            }
            plain_so_far = plain_so_far && plain;
            current = Vec::new();
        } else {
            current.push(c);
        }
        i = i + 1;
    }
    let plain = plain_segment(current.as_slice());
    proof {
        assert(path@.skip(i as int) =~= Seq::<char>::empty());
        assert(segments(path@) =~= done.push(current@));
        lemma_all_plain_push(done, current@);
        if !no_backslash {
            let k = choose|k: int| 0 <= k < i && path@[k] == '\\';
            assert(path@.contains('\\'));
        }
    }
    no_backslash && plain_so_far && plain
}

fn plain_segment(segment: &[char]) -> (plain: bool)
    ensures
        plain == is_plain_segment(segment@),
{
    if segment.len() == 0 {
        return false;
    }
    if segment.len() == 1 && segment[0] == '.' {
        proof {
            assert(segment@ =~= seq!['.']);
        }
        return false;
    }
    if segment.len() == 2 && segment[0] == '.' && segment[1] == '.' {
        proof {
            assert(segment@ =~= seq!['.', '.']);
        }
        return false;
    }
    proof {
        if segment@ == seq!['.'] {
            assert(segment@[0] == '.');
        }
        if segment@ == seq!['.', '.'] {
            assert(segment@[0] == '.' && segment@[1] == '.');
        }
    }
    true
}

/// The last `/`-separated segment of `path`.
fn last_segment(path: &[char]) -> (last: Vec<char>)
    ensures
        last@ == segments(path@).last(),
{
    let mut current: Vec<char> = Vec::new();
    let mut i: usize = 0;
    let ghost mut done: Seq<Seq<char>> = Seq::empty();
    proof {
        assert(path@.skip(0) =~= path@);
    }
    while i < path.len()
        invariant
            i <= path@.len(),
            segments(path@) == done + split_from(path@.skip(i as int), current@),
        decreases path@.len() - i,
    {
        let c = path[i];
        proof {
            assert(path@.skip(i as int).drop_first() =~= path@.skip(i as int + 1));
            assert(path@.skip(i as int)[0] == c);
        }
        if c == '/' {
            proof {
                assert(done.push(current@) + split_from(path@.skip(i as int + 1), Seq::empty())
                    =~= done + (seq![current@] + split_from(path@.skip(i as int + 1), Seq::empty())));
                done = done.push(current@);
            }
            current = Vec::new();
        } else {
            current.push(c);
        }
        i = i + 1;
    }
    proof {
        assert(path@.skip(i as int) =~= Seq::<char>::empty());
        assert(segments(path@) =~= done.push(current@));
    }
    current
}

/// The module name a registry source path installs as: the stem of its final
/// `.rs` segment. Unsafe paths, non-Rust files and unusable names are refused.
pub fn module_name(path: &str) -> (r: Result<String, RegistryError>)
    ensures
        match module_name_result(path@) {
            Ok(name) => r matches Ok(s) && s@ == name,
            Err(_) => r is Err,
        },
        !is_safe_path(path@) ==> (r matches Err(RegistryError::UnsafePath(p)) && p@ == path@),
        is_safe_path(path@) && rust_stem(path@) is None ==> (r matches Err(
            RegistryError::NotRustSource(p),
        ) && p@ == path@),
        is_safe_path(path@) ==> (rust_stem(path@) matches Some(stem) ==> (!is_module_name(stem) ==> (
        r matches Err(RegistryError::InvalidModule(n)) && n@ == stem))),
        r matches Err(e) ==> e@ == module_name_error(path@),
{
    let chars = chars_of(path);
    if !safe_path(chars.as_slice()) {
        return Err(RegistryError::UnsafePath(string_from_chars(chars.as_slice())));
    }
    let last = last_segment(chars.as_slice());
    let n = last.len();
    if !(n >= 3 && last[n - 3] == '.' && last[n - 2] == 'r' && last[n - 1] == 's') {
        proof {
            if n >= 3 && last@.skip(n - 3) == rust_suffix() {
                assert(last@.skip(n - 3)[0] == last@[n - 3]);
                assert(last@.skip(n - 3)[1] == last@[n - 2]);
                assert(last@.skip(n - 3)[2] == last@[n - 1]);
            }
        }
        return Err(RegistryError::NotRustSource(string_from_chars(chars.as_slice())));
    }
    proof {
        assert(last@.skip(n - 3) =~= rust_suffix());
    }
    let mut stem: Vec<char> = Vec::new();
    let mut i: usize = 0;
    let mut plain = true;
    while i < n - 3
        invariant
            n == last@.len(),
            n >= 3,
            i <= n - 3,
            stem@ == last@.take(i as int),
            plain == forall|j: int|
                0 <= j < i ==> {
                    let c = #[trigger] last@[j];
                    is_lower(c) || is_digit(c) || c == '_'
                },
        decreases n - 3 - i,
    {
        let c = last[i];
        if !(('a' <= c && c <= 'z') || ('0' <= c && c <= '9') || c == '_') {
            plain = false;
        }
        stem.push(c);
        proof {
            assert(last@.take(i as int + 1) =~= last@.take(i as int).push(c));
        }
        i = i + 1;
    }
    proof {
        assert(stem@ =~= last@.take(n - 3));
        if plain {
            assert forall|j: int| 0 <= j < stem@.len() implies {
                let c = #[trigger] stem@[j];
                is_lower(c) || is_digit(c) || c == '_'
            } by {
                assert(stem@[j] == last@[j]);
            }
        } else {
            let j = choose|j: int|
                0 <= j < n - 3 && !({
                    let c = #[trigger] last@[j];
                    is_lower(c) || is_digit(c) || c == '_'
                });
            assert(stem@[j] == last@[j]);
        }
    }
    let is_mod = stem.len() == 3 && stem[0] == 'm' && stem[1] == 'o' && stem[2] == 'd';
    proof {
        if stem@ == seq!['m', 'o', 'd'] {
            assert(stem@[0] == 'm' && stem@[1] == 'o' && stem@[2] == 'd');
        }
        if is_mod {
            assert(stem@ =~= seq!['m', 'o', 'd']);
        }
    }
    let name = string_from_chars(stem.as_slice());
    if is_mod || !plain || !parses_as_ident(name.as_str()) {
        return Err(RegistryError::InvalidModule(name));
    }
    Ok(name)
}

/// Optional presentation and dependencies of one registry component.
pub struct Metadata {
    /// Display title; derived from the name when absent.
    pub title: Option<String>,
    /// Description; a default is written when absent.
    pub description: Option<String>,
    /// Components this component's sources use.
    pub dependencies: Vec<String>,
}

/// The registry source manifest (`registry.toml`).
pub struct Manifest {
    /// Registry name.
    pub name: String,
    /// Registry homepage.
    pub homepage: String,
    /// Per-component metadata, keyed by component name, in increasing name
    /// order and each name once (as the parsed table holds them).
    pub components: Vec<(String, Metadata)>,
}

pub open spec fn names_view(v: Seq<String>) -> Seq<Seq<char>> {
    v.map_values(|s: String| s@)
}

/// The dependency table of a manifest: each component name with its dependencies.
pub open spec fn dependency_table(m: &Manifest) -> Seq<(Seq<char>, Seq<Seq<char>>)> {
    m.components@.map_values(|e: (String, Metadata)| (e.0@, names_view(e.1.dependencies@)))
}

/// The dependencies listed for `name`, or none when the manifest has no entry.
pub open spec fn dependencies_of(table: Seq<(Seq<char>, Seq<Seq<char>>)>, name: Seq<char>) -> Seq<Seq<char>>
    decreases table.len(),
{
    if table.len() == 0 {
        Seq::empty()
    } else if table[0].0 == name {
        table[0].1
    } else {
        dependencies_of(table.drop_first(), name)
    }
}

/// `theme`, which every other component depends on.
pub open spec fn theme_name() -> Seq<char> {
    seq!['t', 'h', 'e', 'm', 'e']
}

/// Why dependency resolution failed.
pub enum ResolveFailure {
    Unknown(Seq<char>),
    Cycle(Seq<char>),
}

/// The number of available names not yet being resolved.
pub open spec fn unresolved(available: Seq<Seq<char>>, visiting: Set<Seq<char>>) -> nat {
    available.to_set().difference(visiting).len()
}

pub proof fn lemma_unresolved_decreases(available: Seq<Seq<char>>, visiting: Set<Seq<char>>, name: Seq<char>)
    requires
        available.contains(name),
        !visiting.contains(name),
    ensures
        unresolved(available, visiting.insert(name)) < unresolved(available, visiting),
{
    broadcast use vstd::seq_lib::seq_to_set_is_finite, vstd::set::group_set_axioms;

    let d = available.to_set().difference(visiting);
    assert(available.to_set().difference(visiting.insert(name)) =~= d.remove(name));
    assert(d.contains(name));
}

pub proof fn lemma_to_set_push(s: Seq<Seq<char>>, x: Seq<char>)
    ensures
        s.push(x).to_set() =~= s.to_set().insert(x),
{
    let t = s.push(x);
    assert forall|y: Seq<char>| t.to_set().contains(y) <==> s.to_set().insert(x).contains(y) by {
        if t.contains(y) && y != x {
            let k = choose|k: int| 0 <= k < t.len() && t[k] == y;
            assert(s[k] == y);
        }
        if s.contains(y) {
            let k = choose|k: int| 0 <= k < s.len() && s[k] == y;
            assert(t[k] == y);
        }
        if y == x {
            assert(t[s.len() as int] == y);
        }
    }
}

/// Depth-first resolution of `name`: unknown names and names already on the
/// current path fail; names already resolved are kept once; otherwise theme
/// and then the listed dependencies are resolved before `name` is appended.
pub open spec fn resolve(
    table: Seq<(Seq<char>, Seq<Seq<char>>)>,
    available: Seq<Seq<char>>,
    name: Seq<char>,
    visiting: Set<Seq<char>>,
    result: Seq<Seq<char>>,
) -> Result<Seq<Seq<char>>, ResolveFailure>
    decreases unresolved(available, visiting), 0nat, 0nat,
{
    if !available.contains(name) {
        Err(ResolveFailure::Unknown(name))
    } else if result.contains(name) {
        Ok(result)
    } else if visiting.contains(name) {
        Err(ResolveFailure::Cycle(name))
    } else {
        proof {
            lemma_unresolved_decreases(available, visiting, name);
        }
        let inner = visiting.insert(name);
        let after_theme = if name != theme_name() {
            resolve(table, available, theme_name(), inner, result)
        } else {
            Ok(result)
        };
        match after_theme {
            Err(e) => Err(e),
            Ok(r) => match resolve_all(table, available, dependencies_of(table, name), inner, r) {
                Err(e) => Err(e),
                Ok(r2) => Ok(r2.push(name)),
            },
        }
    }
}

/// Resolves each of `deps` in order.
pub open spec fn resolve_all(
    table: Seq<(Seq<char>, Seq<Seq<char>>)>,
    available: Seq<Seq<char>>,
    deps: Seq<Seq<char>>,
    visiting: Set<Seq<char>>,
    result: Seq<Seq<char>>,
) -> Result<Seq<Seq<char>>, ResolveFailure>
    decreases unresolved(available, visiting), 1nat, deps.len(),
{
    if deps.len() == 0 {
        Ok(result)
    } else {
        match resolve(table, available, deps[0], visiting, result) {
            Err(e) => Err(e),
            Ok(r) => resolve_all(table, available, deps.drop_first(), visiting, r),
        }
    }
}

pub(crate) fn contains_name(names: &Vec<String>, name: &String) -> (found: bool)
    ensures
        found == names_view(names@).contains(name@),
{
    let mut i: usize = 0;
    while i < names.len()
        invariant
            i <= names@.len(),
            forall|j: int| 0 <= j < i ==> names@[j]@ != name@,
        decreases names@.len() - i,
    {
        if names[i] == *name {
            proof {
                assert(names_view(names@)[i as int] == name@);
            }
            return true;
        }
        i = i + 1;
    }
    proof {
        if names_view(names@).contains(name@) {
            let k = choose|k: int| 0 <= k < names_view(names@).len() && names_view(names@)[k] == name@;
            assert(names@[k]@ == name@);
        }
    }
    false
}

fn metadata_dependencies<'a>(manifest: &'a Manifest, name: &String) -> (deps: Option<&'a Vec<String>>)
    ensures
        match deps {
            Some(d) => names_view(d@) == dependencies_of(dependency_table(manifest), name@),
            None => dependencies_of(dependency_table(manifest), name@) == Seq::<Seq<char>>::empty(),
        },
{
    let ghost table = dependency_table(manifest);
    let mut i: usize = 0;
    proof {
        assert(table.skip(0) =~= table);
    }
    while i < manifest.components.len()
        invariant
            table == dependency_table(manifest),
            i <= manifest.components@.len(),
            dependencies_of(table, name@) == dependencies_of(table.skip(i as int), name@),
        decreases manifest.components@.len() - i,
    {
        proof {
            assert(table.skip(i as int).drop_first() =~= table.skip(i as int + 1));
            assert(table.skip(i as int)[0] == table[i as int]);
        }
        if manifest.components[i].0 == *name {
            return Some(&manifest.components[i].1.dependencies);
        }
        i = i + 1;
    }
    proof {
        assert(table.skip(i as int) =~= Seq::<(Seq<char>, Seq<Seq<char>>)>::empty());
    }
    None
}

/// Appends `name` and everything it needs to `result`, dependencies first and
/// each component once. `visiting` holds the components on the current path;
/// it is restored when resolution succeeds.
pub fn dependencies(
    name: &String,
    manifest: &Manifest,
    available: &Vec<String>,
    visiting: &mut Vec<String>,
    result: &mut Vec<String>,
) -> (r: Result<(), RegistryError>)
    ensures
        match resolve(
            dependency_table(manifest),
            names_view(available@),
            name@,
            names_view(old(visiting)@).to_set(),
            names_view(old(result)@),
        ) {
            Ok(resolved) => r is Ok && names_view(final(result)@) == resolved && final(visiting)@
                == old(visiting)@,
            Err(ResolveFailure::Unknown(n)) => r matches Err(RegistryError::UnknownDependency(s))
                && s@ == n,
            Err(ResolveFailure::Cycle(n)) => r matches Err(RegistryError::DependencyCycle(s)) && s@
                == n,
        },
        !names_view(available@).contains(name@) ==> final(result)@ == old(result)@ && final(visiting)@
            == old(visiting)@,
        names_view(available@).contains(name@) && !names_view(old(result)@).contains(name@)
            && names_view(old(visiting)@).contains(name@) ==> final(result)@ == old(result)@
            && final(visiting)@ == old(visiting)@,
    decreases unresolved(names_view(available@), names_view(old(visiting)@).to_set()),
{
    let ghost table = dependency_table(manifest);
    let ghost avail = names_view(available@);
    let ghost v0 = names_view(visiting@).to_set();
    if !contains_name(available, name) {
        return Err(RegistryError::UnknownDependency(name.clone()));
    }
    if contains_name(result, name) {
        return Ok(());
    }
    if contains_name(visiting, name) {
        return Err(RegistryError::DependencyCycle(name.clone()));
    }
    let ghost before = visiting@;
    visiting.push(name.clone());
    proof {
        assert(names_view(visiting@) =~= names_view(before).push(name@));
        lemma_to_set_push(names_view(before), name@);
        lemma_unresolved_decreases(avail, v0, name@);
    }
    let theme = "theme".to_owned();
    proof {
        reveal_strlit("theme");
        assert(theme@ =~= theme_name());
    }
    let ghost inner = v0.insert(name@);
    let ghost r0 = names_view(result@);
    if *name != theme {
        match dependencies(&theme, manifest, available, visiting, result) {
            Ok(()) => {},
            Err(e) => return Err(e),
        }
    }
    let ghost rt = names_view(result@);
    proof {
        assert(name@ != theme_name() ==> resolve(table, avail, theme_name(), inner, r0) == Ok::<
            Seq<Seq<char>>,
            ResolveFailure,
        >(rt));
        assert(name@ == theme_name() ==> rt == r0);
        assert(resolve(table, avail, name@, v0, r0) == match resolve_all(
            table,
            avail,
            dependencies_of(table, name@),
            inner,
            rt,
        ) {
            Err(e) => Err(e),
            Ok(r2) => Ok(r2.push(name@)),
        });
    }
    match metadata_dependencies(manifest, name) {
        Some(deps) => {
            let ghost ds = names_view(deps@);
            let mut i: usize = 0;
            proof {
                assert(ds.skip(0) =~= ds);
            }
            while i < deps.len()
                invariant
                    i <= deps@.len(),
                    ds == names_view(deps@),
                    names_view(visiting@) == names_view(before).push(name@),
                    visiting@ == before.push(*name),
                    names_view(visiting@).to_set() == inner,
                    inner == v0.insert(name@),
                    unresolved(avail, inner) < unresolved(avail, v0),
                    avail == names_view(available@),
                    table == dependency_table(manifest),
                    resolve_all(table, avail, ds, inner, rt) == resolve_all(
                        table,
                        avail,
                        ds.skip(i as int),
                        inner,
                        names_view(result@),
                    ),
                    ds == dependencies_of(table, name@),
                    v0 == names_view(old(visiting)@).to_set(),
                    r0 == names_view(old(result)@),
                    names_view(available@).contains(name@),
                    !names_view(old(visiting)@).contains(name@),
                    resolve(table, avail, name@, v0, r0) == match resolve_all(table, avail, ds, inner, rt) {
                        Err(e) => Err(e),
                        Ok(r2) => Ok(r2.push(name@)),
                    },
                decreases deps@.len() - i,
            {
                proof {
                    assert(ds.skip(i as int).drop_first() =~= ds.skip(i as int + 1));
                    assert(ds.skip(i as int)[0] == ds[i as int]);
                    assert(ds[i as int] == deps@[i as int]@);
                }
                let ghost rb = names_view(result@);
                match dependencies(&deps[i], manifest, available, visiting, result) {
                    Ok(()) => {},
                    Err(e) => {
                        proof {
                            assert(resolve(table, avail, ds[i as int], inner, rb) is Err);
                            assert(resolve_all(table, avail, ds.skip(i as int), inner, rb) == resolve(
                                table,
                                avail,
                                ds[i as int],
                                inner,
                                rb,
                            ));
                        }
                        return Err(e);
                    },
                }
                i = i + 1;
            }
            proof {
                assert(ds.skip(i as int) =~= Seq::<Seq<char>>::empty());
            }
        },
        None => {},
    }
    proof {
        assert(resolve_all(table, avail, dependencies_of(table, name@), inner, rt) == Ok::<
            Seq<Seq<char>>,
            ResolveFailure,
        >(names_view(result@)));
    }
    let ghost r_end = names_view(result@);
    visiting.pop();
    proof {
        assert(visiting@ =~= before);
    }
    result.push(name.clone());
    proof {
        assert(names_view(result@) =~= r_end.push(name@));
    }
    Ok(())
}


/// `new` begins with `old`.
pub open spec fn extends(old: Seq<Seq<char>>, new: Seq<Seq<char>>) -> bool {
    new.len() >= old.len() && new.take(old.len() as int) == old
}

/// No name occurs twice.
pub open spec fn no_repeats(s: Seq<Seq<char>>) -> bool {
    forall|i: int, j: int| 0 <= i < j < s.len() ==> s[i] != s[j]
}

/// Everything that `s[i]` needs (theme, unless it is theme, and its listed
/// dependencies) occurs before position `i`.
pub open spec fn needs_met_at(table: Seq<(Seq<char>, Seq<Seq<char>>)>, s: Seq<Seq<char>>, i: int) -> bool {
    &&& s[i] != theme_name() ==> s.take(i).contains(theme_name())
    &&& forall|k: int|
        0 <= k < dependencies_of(table, s[i]).len() ==> s.take(i).contains(
            #[trigger] dependencies_of(table, s[i])[k],
        )
}

/// What every successful resolution appends after `old`: available names that
/// were not on the path, each after everything it needs.
pub open spec fn appended_well(
    table: Seq<(Seq<char>, Seq<Seq<char>>)>,
    available: Seq<Seq<char>>,
    visiting: Set<Seq<char>>,
    old: Seq<Seq<char>>,
    new: Seq<Seq<char>>,
) -> bool {
    &&& extends(old, new)
    &&& forall|i: int|
        old.len() <= i < new.len() ==> {
            &&& available.contains(#[trigger] new[i])
            &&& !visiting.contains(new[i])
            &&& needs_met_at(table, new, i)
        }
    &&& no_repeats(old) ==> no_repeats(new)
}

proof fn lemma_appended_trans(
    table: Seq<(Seq<char>, Seq<Seq<char>>)>,
    available: Seq<Seq<char>>,
    v_outer: Set<Seq<char>>,
    v_inner: Set<Seq<char>>,
    a: Seq<Seq<char>>,
    b: Seq<Seq<char>>,
    c: Seq<Seq<char>>,
)
    requires
        v_outer.subset_of(v_inner),
        appended_well(table, available, v_outer, a, b),
        appended_well(table, available, v_inner, b, c),
    ensures
        appended_well(table, available, v_outer, a, c),
{
    assert(c.take(a.len() as int) =~= b.take(a.len() as int)) by {
        assert forall|k: int| 0 <= k < a.len() implies c.take(a.len() as int)[k] == b.take(
            a.len() as int,
        )[k] by {
            assert(c.take(b.len() as int)[k] == c[k]);
        }
    }
    assert forall|i: int| a.len() <= i < c.len() implies {
        &&& available.contains(#[trigger] c[i])
        &&& !v_outer.contains(c[i])
        &&& needs_met_at(table, c, i)
    } by {
        if i < b.len() {
            assert(c[i] == c.take(b.len() as int)[i]);
            assert(c.take(i) =~= b.take(i)) by {
                assert forall|k: int| 0 <= k < i implies c.take(i)[k] == b.take(i)[k] by {
                    assert(c.take(b.len() as int)[k] == c[k]);
                }
            }
        }
    }
}

proof fn lemma_prefix_contains(old: Seq<Seq<char>>, new: Seq<Seq<char>>, x: Seq<char>)
    requires
        extends(old, new),
        old.contains(x),
    ensures
        new.contains(x),
        new.take(old.len() as int).contains(x),
{
    let k = choose|k: int| 0 <= k < old.len() && old[k] == x;
    assert(new.take(old.len() as int)[k] == x);
    assert(new[k] == x);
}

/// Successful resolution keeps what was resolved before, ends with `name`
/// resolved, and appends only available names that were not on the path,
/// each after theme and its own dependencies, never repeating one.
pub proof fn lemma_resolve_order(
    table: Seq<(Seq<char>, Seq<Seq<char>>)>,
    available: Seq<Seq<char>>,
    name: Seq<char>,
    visiting: Set<Seq<char>>,
    result: Seq<Seq<char>>,
)
    requires
        resolve(table, available, name, visiting, result) is Ok,
    ensures
        ({
            let r = resolve(table, available, name, visiting, result)->Ok_0;
            &&& appended_well(table, available, visiting, result, r)
            &&& r.contains(name)
        }),
    decreases unresolved(available, visiting), 0nat, 0nat,
{
    assert(result.take(result.len() as int) =~= result);
    if result.contains(name) {
    } else {
        lemma_unresolved_decreases(available, visiting, name);
        let inner = visiting.insert(name);
        let rt = if name != theme_name() {
            lemma_resolve_order(table, available, theme_name(), inner, result);
            resolve(table, available, theme_name(), inner, result)->Ok_0
        } else {
            result
        };
        let deps = dependencies_of(table, name);
        lemma_resolve_all_order(table, available, deps, inner, rt);
        let r2 = resolve_all(table, available, deps, inner, rt)->Ok_0;
        if name != theme_name() {
            lemma_appended_trans(table, available, inner, inner, result, rt, r2);
        }
        let r = r2.push(name);
        assert(r == resolve(table, available, name, visiting, result)->Ok_0);
        assert(appended_well(table, available, inner, result, r2));
        // `name` is on the path, so nothing appended before it is `name`.
        assert(!r2.contains(name)) by {
            if r2.contains(name) {
                let k = choose|k: int| 0 <= k < r2.len() && r2[k] == name;
                if k < result.len() {
                    assert(r2.take(result.len() as int)[k] == name);
                    assert(result[k] == name);
                } else {
                    assert(!inner.contains(r2[k]));
                }
            }
        }
        assert(r.take(r2.len() as int) =~= r2);
        assert(r.take(result.len() as int) =~= r2.take(result.len() as int));
        assert(r[r2.len() as int] == name);
        assert(r.contains(name));
        assert forall|i: int| result.len() <= i < r.len() implies {
            &&& available.contains(#[trigger] r[i])
            &&& !visiting.contains(r[i])
            &&& needs_met_at(table, r, i)
        } by {
            if i < r2.len() {
                assert(r[i] == r2[i]);
                assert(r.take(i) =~= r2.take(i));
            } else {
                assert(r.take(i) =~= r2);
                if name != theme_name() {
                    assert(rt.contains(theme_name()));
                    lemma_prefix_contains(rt, r2, theme_name());
                }
            }
        }
        assert(no_repeats(result) ==> no_repeats(r)) by {
            if no_repeats(result) {
                assert forall|i: int, j: int| 0 <= i < j < r.len() implies r[i] != r[j] by {
                    if j == r2.len() {
                        assert(r[i] == r2[i]);
                        assert(r2.contains(r2[i]));
                    } else {
                        assert(r[i] == r2[i] && r[j] == r2[j]);
                    }
                }
            }
        }
    }
}

/// `resolve_all` version of `lemma_resolve_order`: every listed name ends up resolved.
pub proof fn lemma_resolve_all_order(
    table: Seq<(Seq<char>, Seq<Seq<char>>)>,
    available: Seq<Seq<char>>,
    deps: Seq<Seq<char>>,
    visiting: Set<Seq<char>>,
    result: Seq<Seq<char>>,
)
    requires
        resolve_all(table, available, deps, visiting, result) is Ok,
    ensures
        ({
            let r = resolve_all(table, available, deps, visiting, result)->Ok_0;
            &&& appended_well(table, available, visiting, result, r)
            &&& forall|k: int| 0 <= k < deps.len() ==> r.contains(#[trigger] deps[k])
        }),
    decreases unresolved(available, visiting), 1nat, deps.len(),
{
    assert(result.take(result.len() as int) =~= result);
    if deps.len() > 0 {
        lemma_resolve_order(table, available, deps[0], visiting, result);
        let r1 = resolve(table, available, deps[0], visiting, result)->Ok_0;
        lemma_resolve_all_order(table, available, deps.drop_first(), visiting, r1);
        let r = resolve_all(table, available, deps.drop_first(), visiting, r1)->Ok_0;
        lemma_appended_trans(table, available, visiting, visiting, result, r1, r);
        assert forall|k: int| 0 <= k < deps.len() implies r.contains(#[trigger] deps[k]) by {
            if k == 0 {
                lemma_prefix_contains(r1, r, deps[0]);
            } else {
                assert(deps.drop_first()[k - 1] == deps[k]);
            }
        }
    }
}


proof fn lemma_resolve_all_meets_path(
    table: Seq<(Seq<char>, Seq<Seq<char>>)>,
    available: Seq<Seq<char>>,
    deps: Seq<Seq<char>>,
    visiting: Set<Seq<char>>,
    result: Seq<Seq<char>>,
    name: Seq<char>,
)
    requires
        deps.contains(name),
        available.contains(name),
        visiting.contains(name),
        !result.contains(name),
    ensures
        resolve_all(table, available, deps, visiting, result) is Err,
    decreases deps.len(),
{
    if deps[0] == name {
    } else {
        if resolve(table, available, deps[0], visiting, result) is Ok {
            lemma_resolve_order(table, available, deps[0], visiting, result);
            let r1 = resolve(table, available, deps[0], visiting, result)->Ok_0;
            assert(!r1.contains(name)) by {
                if r1.contains(name) {
                    let k = choose|k: int| 0 <= k < r1.len() && r1[k] == name;
                    if k < result.len() {
                        assert(r1.take(result.len() as int)[k] == name);
                        assert(result[k] == name);
                    }
                }
            }
            let j = choose|j: int| 0 <= j < deps.len() && deps[j] == name;
            assert(deps.drop_first()[j - 1] == name);
            lemma_resolve_all_meets_path(table, available, deps.drop_first(), visiting, r1, name);
        }
    }
}

/// A component that lists itself among its dependencies is refused, unless
/// it was already resolved.
pub proof fn lemma_self_dependency_fails(
    table: Seq<(Seq<char>, Seq<Seq<char>>)>,
    available: Seq<Seq<char>>,
    name: Seq<char>,
    visiting: Set<Seq<char>>,
    result: Seq<Seq<char>>,
)
    requires
        available.contains(name),
        !result.contains(name),
        dependencies_of(table, name).contains(name),
    ensures
        resolve(table, available, name, visiting, result) is Err,
{
    if !visiting.contains(name) {
        let inner = visiting.insert(name);
        if name != theme_name() && resolve(table, available, theme_name(), inner, result) is Ok {
            lemma_resolve_order(table, available, theme_name(), inner, result);
            let rt = resolve(table, available, theme_name(), inner, result)->Ok_0;
            assert(!rt.contains(name)) by {
                if rt.contains(name) {
                    let k = choose|k: int| 0 <= k < rt.len() && rt[k] == name;
                    if k < result.len() {
                        assert(rt.take(result.len() as int)[k] == name);
                        assert(result[k] == name);
                    }
                }
            }
            lemma_resolve_all_meets_path(table, available, dependencies_of(table, name), inner, rt, name);
        } else if name == theme_name() {
            lemma_resolve_all_meets_path(table, available, dependencies_of(table, name), inner, result, name);
        }
    }
}


impl Manifest {
    /// The metadata listed for component `name`, if any.
    pub fn metadata(&self, name: &str) -> (metadata: Option<&Metadata>)
        ensures
            match metadata {
                Some(m) => exists|i: int|
                    0 <= i < self.components@.len() && self.components@[i].0@ == name@ && *m
                        == self.components@[i].1 && forall|j: int|
                        0 <= j < i ==> #[trigger] self.components@[j].0@ != name@,
                None => forall|i: int| 0 <= i < self.components@.len() ==> #[trigger] self.components@[i].0@ != name@,
            },
    {
        let key = name.to_owned();
        let mut i: usize = 0;
        while i < self.components.len()
            invariant
                i <= self.components@.len(),
                key@ == name@,
                forall|j: int| 0 <= j < i ==> #[trigger] self.components@[j].0@ != name@,
            decreases self.components@.len() - i,
        {
            if self.components[i].0 == key {
                return Some(&self.components[i].1);
            }
            i = i + 1;
        }
        None
    }
}


/// `x` needs `y`: `y` is theme and `x` is not, or `x` lists `y`.
pub open spec fn needs(table: Seq<(Seq<char>, Seq<Seq<char>>)>, x: Seq<char>, y: Seq<char>) -> bool {
    (y == theme_name() && x != theme_name()) || dependencies_of(table, x).contains(y)
}

proof fn lemma_need_is_earlier(
    table: Seq<(Seq<char>, Seq<Seq<char>>)>,
    r: Seq<Seq<char>>,
    i: int,
    y: Seq<char>,
)
    requires
        0 <= i < r.len(),
        needs_met_at(table, r, i),
        needs(table, r[i], y),
    ensures
        exists|j: int| 0 <= j < i && r[j] == y,
{
    let t = r.take(i);
    if y == theme_name() && r[i] != theme_name() {
        let j = choose|j: int| 0 <= j < t.len() && t[j] == y;
        assert(r[j] == y);
    } else {
        let deps = dependencies_of(table, r[i]);
        let k = choose|k: int| 0 <= k < deps.len() && deps[k] == y;
        assert(t.contains(deps[k]));
        let j = choose|j: int| 0 <= j < t.len() && t[j] == y;
        assert(r[j] == y);
    }
}

proof fn lemma_chain_descends(
    table: Seq<(Seq<char>, Seq<Seq<char>>)>,
    result: Seq<Seq<char>>,
    r: Seq<Seq<char>>,
    visiting: Set<Seq<char>>,
    available: Seq<Seq<char>>,
    path: Seq<Seq<char>>,
    i: int,
    pos: int,
) -> (last: int)
    requires
        appended_well(table, available, visiting, result, r),
        0 <= i < path.len(),
        result.len() <= pos < r.len(),
        r[pos] == path[i],
        forall|k: int| 0 <= k < path.len() ==> !result.contains(#[trigger] path[k]),
        forall|k: int| 0 <= k < path.len() - 1 ==> needs(table, #[trigger] path[k], path[k + 1]),
        needs(table, path.last(), path[0]),
    ensures
        result.len() <= last <= pos,
        r[last] == path.last(),
        i < path.len() - 1 ==> last < pos,
    decreases path.len() - i,
{
    if i == path.len() - 1 {
        pos
    } else {
        lemma_need_is_earlier(table, r, pos, path[i + 1]);
        let j = choose|j: int| 0 <= j < pos && r[j] == path[i + 1];
        if j < result.len() {
            assert(r.take(result.len() as int)[j] == path[i + 1]);
            assert(result[j] == path[i + 1]);
            assert(result.contains(path[i + 1]));
        }
        lemma_chain_descends(table, result, r, visiting, available, path, i + 1, j)
    }
}

/// A cycle of needs through `name` (`name` needs `path[1]`, each needs the
/// next, and the last needs `name`) makes resolving `name` fail, unless a
/// component of the cycle was already resolved.
pub proof fn lemma_dependency_cycle_fails(
    table: Seq<(Seq<char>, Seq<Seq<char>>)>,
    available: Seq<Seq<char>>,
    path: Seq<Seq<char>>,
    visiting: Set<Seq<char>>,
    result: Seq<Seq<char>>,
)
    requires
        path.len() > 0,
        no_repeats(result),
        forall|k: int| 0 <= k < path.len() ==> !result.contains(#[trigger] path[k]),
        forall|k: int| 0 <= k < path.len() - 1 ==> needs(table, #[trigger] path[k], path[k + 1]),
        needs(table, path.last(), path[0]),
    ensures
        resolve(table, available, path[0], visiting, result) is Err,
{
    if resolve(table, available, path[0], visiting, result) is Ok {
        lemma_resolve_order(table, available, path[0], visiting, result);
        let r = resolve(table, available, path[0], visiting, result)->Ok_0;
        let p = choose|p: int| 0 <= p < r.len() && r[p] == path[0];
        if p < result.len() {
            assert(r.take(result.len() as int)[p] == path[0]);
            assert(result[p] == path[0]);
            assert(result.contains(path[0]));
        }
        let last = lemma_chain_descends(table, result, r, visiting, available, path, 0, p);
        lemma_need_is_earlier(table, r, last, path[0]);
        let q = choose|q: int| 0 <= q < last && r[q] == path[0];
        assert(q < p);
        assert(no_repeats(r));
    }
}

} // verus!
