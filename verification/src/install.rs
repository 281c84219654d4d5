//! Installing registry components: validating the items a registry returns,
//! collecting their source modules, declaring root modules in `mod.rs`, and
//! planning which files an installation writes.
use crate::names::{increasing, lex_lt, less_than, names_of, sorted_set};
use crate::registry::{RegistryError, module_name, module_name_result};
use crate::text::chars_of;
use vstd::prelude::*;

verus! {

/// One source file of a registry item.
pub struct SourceFile {
    /// The path in the registry's source tree; it decides the installed module.
    pub path: String,
    /// The file kind; only `registry:file` is installed.
    pub kind: String,
    /// The shadcn target path. Installation never writes where it points.
    pub target: String,
    /// The file's text.
    pub content: Option<String>,
}

/// A registry item (one component) as the registry publishes it.
pub struct RegistryItem {
    /// The item schema.
    pub schema: Option<String>,
    /// The published name.
    pub name: String,
    /// The item kind.
    pub kind: String,
    /// The display title.
    pub title: String,
    /// The description.
    pub description: String,
    /// The source files.
    pub files: Vec<SourceFile>,
}

/// The registry index.
pub struct RegistryIndex {
    /// The index schema.
    pub schema: String,
    /// Registry name.
    pub name: String,
    /// Registry homepage.
    pub homepage: String,
    /// The items, without inline content.
    pub items: Vec<RegistryItem>,
}

/// A source file as plain values.
pub struct SourceView {
    pub path: Seq<char>,
    pub kind: Seq<char>,
    pub target: Seq<char>,
    pub content: Option<Seq<char>>,
}

impl View for SourceFile {
    type V = SourceView;

    open spec fn view(&self) -> SourceView {
        SourceView {
            path: self.path@,
            kind: self.kind@,
            target: self.target@,
            content: match self.content {
                Some(c) => Some(c@),
                None => None,
            },
        }
    }
}

/// The source files of an item as plain values.
pub open spec fn sources_view(files: Seq<SourceFile>) -> Seq<SourceView> {
    Seq::new(files.len(), |i: int| files[i]@)
}

/// Module name and text of each collected module, in increasing module order.
pub type Entries = Seq<(Seq<char>, Seq<char>)>;

/// The entries as plain values.
pub open spec fn entries_view(files: Seq<(String, String)>) -> Entries {
    Seq::new(files.len(), |i: int| (files[i].0@, files[i].1@))
}

/// The module names of the entries.
pub open spec fn keys(entries: Entries) -> Seq<Seq<char>> {
    Seq::new(entries.len(), |i: int| entries[i].0)
}

/// The text recorded for `module`.
pub open spec fn text_of(entries: Entries, module: Seq<char>) -> Option<Seq<char>>
    decreases entries.len(),
{
    if entries.len() == 0 {
        None
    } else if entries[0].0 == module {
        Some(entries[0].1)
    } else {
        text_of(entries.drop_first(), module)
    }
}

proof fn lemma_text_of_index(entries: Entries, j: int)
    requires
        increasing(keys(entries)),
        0 <= j < entries.len(),
    ensures
        text_of(entries, entries[j].0) == Some(entries[j].1),
    decreases entries.len(),
{
    if j > 0 {
        assert(lex_lt(keys(entries)[0], keys(entries)[j]));
        if entries[0].0 == entries[j].0 {
            crate::names::lemma_lex_irreflexive(entries[0].0);
        }
        let rest = entries.drop_first();
        assert(keys(rest) =~= keys(entries).drop_first());
        assert(rest[j - 1] == entries[j]);
        lemma_text_of_index(rest, j - 1);
    }
}

proof fn lemma_text_of_absent(entries: Entries, module: Seq<char>)
    requires
        forall|j: int| 0 <= j < entries.len() ==> entries[j].0 != module,
    ensures
        text_of(entries, module) is None,
    decreases entries.len(),
{
    if entries.len() > 0 {
        let rest = entries.drop_first();
        assert forall|j: int| 0 <= j < rest.len() implies rest[j].0 != module by {
            assert(rest[j] == entries[j + 1]);
        }
        lemma_text_of_absent(rest, module);
    }
}

proof fn lemma_text_of_present(entries: Entries, module: Seq<char>)
    requires
        text_of(entries, module) is Some,
    ensures
        exists|j: int| 0 <= j < entries.len() && entries[j].0 == module,
    decreases entries.len(),
{
    if entries[0].0 != module {
        lemma_text_of_present(entries.drop_first(), module);
        let j = choose|j: int| 0 <= j < entries.drop_first().len() && entries.drop_first()[j].0 == module;
        assert(entries[j + 1].0 == module);
    }
}

/// Records `text` for `module` in the increasing entries (`BTreeMap::insert`),
/// returning the text recorded before.
pub fn insert_entry(files: &mut Vec<(String, String)>, module: String, text: String) -> (previous: Option<String>)
    requires
        increasing(keys(entries_view(old(files)@))),
    ensures
        increasing(keys(entries_view(final(files)@))),
        forall|m: Seq<char>|
            #[trigger] text_of(entries_view(final(files)@), m) == if m == module@ {
                Some(text@)
            } else {
                text_of(entries_view(old(files)@), m)
            },
        keys(entries_view(final(files)@)).to_set() == keys(entries_view(old(files)@)).to_set().insert(
            module@,
        ),
        match previous {
            Some(p) => text_of(entries_view(old(files)@), module@) == Some(p@),
            None => text_of(entries_view(old(files)@), module@) is None,
        },
{
    let ghost old_entries = entries_view(files@);
    let ghost s = keys(old_entries);
    let mut i: usize = 0;
    let mut searching = true;
    while searching && i < files.len()
        invariant
            old_entries == entries_view(files@),
            s == keys(old_entries),
            increasing(s),
            i <= s.len(),
            forall|j: int| 0 <= j < i ==> lex_lt(#[trigger] s[j], module@),
            !searching ==> i < s.len() && !lex_lt(s[i as int], module@),
        decreases s.len() - i + (if searching {
            1int
        } else {
            0int
        }),
    {
        if less_than(files[i].0.as_str(), module.as_str()) {
            i = i + 1;
        } else {
            searching = false;
        }
    }
    if i < files.len() && files[i].0 == module {
        let ghost j = i as int;
        proof {
            lemma_text_of_index(old_entries, j);
        }
        let previous = files[i].1.clone();
        let m2 = module.clone();
        files.set(i, (m2, text));
        proof {
            let new_entries = entries_view(files@);
            assert(keys(new_entries) =~= s);
            assert forall|m: Seq<char>| #[trigger] text_of(new_entries, m) == if m == module@ {
                Some(text@)
            } else {
                text_of(old_entries, m)
            } by {
                if m == module@ {
                    lemma_text_of_index(new_entries, j);
                } else if exists|q: int| 0 <= q < s.len() && s[q] == m {
                    let q = choose|q: int| 0 <= q < s.len() && s[q] == m;
                    lemma_text_of_index(new_entries, q);
                    lemma_text_of_index(old_entries, q);
                } else {
                    assert forall|q: int| 0 <= q < new_entries.len() implies new_entries[q].0 != m by {
                        assert(keys(new_entries)[q] == new_entries[q].0);
                    }
                    assert forall|q: int| 0 <= q < old_entries.len() implies old_entries[q].0 != m by {
                        assert(s[q] == old_entries[q].0);
                    }
                    lemma_text_of_absent(new_entries, m);
                    lemma_text_of_absent(old_entries, m);
                }
            }
            assert(s.to_set().insert(module@) =~= s.to_set());
        }
        return Some(previous);
    }
    let ghost mv = module@;
    let ghost tv = text@;
    files.insert(i, (module, text));
    proof {
        let new_entries = entries_view(files@);
        assert(new_entries =~= old_entries.insert(i as int, (mv, tv)));
        assert(keys(new_entries) =~= s.insert(i as int, mv));
        if i < s.len() {
            crate::names::lemma_lex_total(s[i as int], mv);
        }
        let t = s.insert(i as int, mv);
        assert forall|a: int, b: int| 0 <= a < b < t.len() implies lex_lt(#[trigger] t[a], #[trigger] t[b]) by {
            if b < i {
                assert(t[a] == s[a] && t[b] == s[b]);
            } else if b == i {
                assert(t[a] == s[a]);
            } else if a == i {
                assert(t[b] == s[b - 1]);
                if b - 1 > i {
                    assert(lex_lt(s[i as int], s[b - 1]));
                    crate::names::lemma_lex_transitive(mv, s[i as int], s[b - 1]);
                }
            } else if a < i {
                assert(t[a] == s[a] && t[b] == s[b - 1]);
            } else {
                assert(t[a] == s[a - 1] && t[b] == s[b - 1]);
            }
        }
        assert forall|q: int| 0 <= q < s.len() implies s[q] != mv by {
            if q < i {
                crate::names::lemma_lex_irreflexive(mv);
            } else if q > i {
                assert(lex_lt(s[i as int], s[q]));
                if s[q] == mv {
                    crate::names::lemma_lex_asymmetric(s[i as int], mv);
                }
            }
        }
        assert forall|q: int| 0 <= q < old_entries.len() implies old_entries[q].0 != mv by {
            assert(s[q] == old_entries[q].0);
        }
        lemma_text_of_absent(old_entries, mv);
        assert forall|m: Seq<char>| #[trigger] text_of(new_entries, m) == if m == mv {
            Some(tv)
        } else {
            text_of(old_entries, m)
        } by {
            if m == mv {
                lemma_text_of_index(new_entries, i as int);
            } else if exists|q: int| 0 <= q < s.len() && s[q] == m {
                let q = choose|q: int| 0 <= q < s.len() && s[q] == m;
                lemma_text_of_index(old_entries, q);
                if q < i {
                    assert(new_entries[q] == old_entries[q]);
                    lemma_text_of_index(new_entries, q);
                } else {
                    assert(new_entries[q + 1] == old_entries[q]);
                    lemma_text_of_index(new_entries, q + 1);
                }
            } else {
                assert forall|q: int| 0 <= q < new_entries.len() implies new_entries[q].0 != m by {
                    if q < i {
                        assert(new_entries[q] == old_entries[q]);
                        assert(s[q] == old_entries[q].0);
                    } else if q > i {
                        assert(new_entries[q] == old_entries[q - 1]);
                        assert(s[q - 1] == old_entries[q - 1].0);
                    }
                }
                lemma_text_of_absent(new_entries, m);
                assert forall|q: int| 0 <= q < old_entries.len() implies old_entries[q].0 != m by {
                    assert(s[q] == old_entries[q].0);
                }
                lemma_text_of_absent(old_entries, m);
            }
        }
        assert forall|x: Seq<char>| t.to_set().contains(x) <==> s.to_set().insert(mv).contains(x) by {
            if t.contains(x) {
                let q = choose|q: int| 0 <= q < t.len() && t[q] == x;
                if q < i {
                    assert(s[q] == x);
                } else if q > i {
                    assert(s[q - 1] == x);
                }
            }
            if s.contains(x) {
                let q = choose|q: int| 0 <= q < s.len() && s[q] == x;
                if q < i {
                    assert(t[q] == x);
                } else {
                    assert(t[q + 1] == x);
                }
            }
            if x == mv {
                assert(t[i as int] == mv);
            }
        }
        assert(t.to_set() =~= s.to_set().insert(mv));
    }
    None
}


/// Whether `syn::parse_file` accepts `text` as a Rust source file.
pub uninterp spec fn is_rust_file(text: Seq<char>) -> bool;

#[verifier::external_type_specification]
#[verifier::external_body]
pub struct ExSynFile(syn::File);

#[verifier::external_type_specification]
#[verifier::external_body]
pub struct ExSynError(syn::Error);

/// What `syn::parse_file` reads of the items of `text` (see `file_modules`).
pub uninterp spec fn parsed_modules(text: Seq<char>) -> Seq<Option<(Seq<char>, bool, Seq<(Option<Seq<char>>, Option<Seq<char>>)>)>>;

/// Calls `syn::parse_file`. The contract names when it succeeds and what the
/// parsed file holds, both functions of the text alone; the Rust grammar is
/// not restated here.
#[verifier::external_body]
fn parse_file(text: &str) -> (parsed: Result<syn::File, syn::Error>)
    ensures
        parsed is Ok <==> is_rust_file(text@),
        parsed matches Ok(f) ==> file_modules(f) == parsed_modules(text@),
{
    syn::parse_file(text)
}

/// An attribute as the installer reads it: the single identifier its path
/// is, if it is one, and the string it is set to, if it has the form
/// `name = "string"`.
pub type AttributeSyntax = (Option<Seq<char>>, Option<Seq<char>>);

/// A module declaration as the installer reads it: its name, whether it has
/// an inline body, and its attributes in order.
pub type ModuleSyntax = (Seq<char>, bool, Seq<AttributeSyntax>);

/// What a parsed file holds, item by item, as plain values: `None` for an item
/// that is no module declaration, the declaration (see `ModuleSyntax`) for
/// one that is.
pub uninterp spec fn file_modules(file: syn::File) -> Seq<Option<(Seq<char>, bool, Seq<(Option<Seq<char>>, Option<Seq<char>>)>)>>;

/// The number of items of a parsed file (`syn::File::items`).
#[verifier::external_body]
fn item_count(file: &syn::File) -> (n: usize)
    ensures
        n == file_modules(*file).len(),
{
    file.items.len()
}

/// Item `i` of a parsed file, if it is a module declaration (`syn::Item::Mod`):
/// its name (`syn::Ident::to_string`) and whether it has an inline body
/// (`syn::ItemMod::content`).
#[verifier::external_body]
fn module_at(file: &syn::File, i: usize) -> (module: Option<(String, bool)>)
    requires
        i < file_modules(*file).len(),
    ensures
        match file_modules(*file)[i as int] {
            None => module is None,
            Some(m) => module matches Some((name, inline)) && name@ == m.0 && inline == m.1,
        },
{
    match &file.items[i] {
        syn::Item::Mod(module) => Some((module.ident.to_string(), module.content.is_some())),
        _ => None,
    }
}

/// The number of attributes of module declaration `i` (`syn::ItemMod::attrs`).
#[verifier::external_body]
fn attribute_count(file: &syn::File, i: usize) -> (n: usize)
    requires
        i < file_modules(*file).len(),
        file_modules(*file)[i as int] is Some,
    ensures
        n == file_modules(*file)[i as int].unwrap().2.len(),
{
    match &file.items[i] {
        syn::Item::Mod(module) => module.attrs.len(),
        _ => 0,
    }
}

/// The single identifier that the path of attribute `k` of module declaration
/// `i` is, if it is one (`syn::Path::get_ident` on `syn::Attribute::path`,
/// then `syn::Ident::to_string`).
#[verifier::external_body]
fn attribute_ident(file: &syn::File, i: usize, k: usize) -> (ident: Option<String>)
    requires
        i < file_modules(*file).len(),
        file_modules(*file)[i as int] is Some,
        k < file_modules(*file)[i as int].unwrap().2.len(),
    ensures
        match file_modules(*file)[i as int].unwrap().2[k as int].0 {
            None => ident is None,
            Some(name) => ident matches Some(s) && s@ == name,
        },
{
    match &file.items[i] {
        syn::Item::Mod(module) => match module.attrs[k].path().get_ident() {
            Some(ident) => Some(ident.to_string()),
            None => None,
        },
        _ => None,
    }
}

/// The string that attribute `k` of module declaration `i` is set to, if it
/// has the form `name = "string"` (`syn::Meta::NameValue` holding a
/// `syn::Lit::Str`, then `syn::LitStr::value`).
#[verifier::external_body]
fn attribute_string(file: &syn::File, i: usize, k: usize) -> (value: Option<String>)
    requires
        i < file_modules(*file).len(),
        file_modules(*file)[i as int] is Some,
        k < file_modules(*file)[i as int].unwrap().2.len(),
    ensures
        match file_modules(*file)[i as int].unwrap().2[k as int].1 {
            None => value is None,
            Some(text) => value matches Some(s) && s@ == text,
        },
{
    match &file.items[i] {
        syn::Item::Mod(module) => match &module.attrs[k].meta {
            syn::Meta::NameValue(meta) => match &meta.value {
                syn::Expr::Lit(syn::ExprLit { lit: syn::Lit::Str(text), .. }) => Some(text.value()),
                _ => None,
            },
            _ => None,
        },
        _ => None,
    }
}

/// `path`.
pub open spec fn path_ident() -> Seq<char> {
    seq!['p', 'a', 't', 'h']
}

/// Whether an attribute's path is the single identifier `path`.
pub open spec fn is_path_attribute(a: AttributeSyntax) -> bool {
    a.0 == Some(path_ident())
}

/// Whether any of `attributes` is a `path` attribute.
pub open spec fn has_path_attribute(attributes: Seq<AttributeSyntax>) -> bool {
    exists|k: int| 0 <= k < attributes.len() && is_path_attribute(#[trigger] attributes[k])
}

/// The module declarations among `items`, in order.
pub open spec fn decls_of(items: Seq<Option<ModuleSyntax>>) -> Seq<DeclView>
    decreases items.len(),
{
    if items.len() == 0 {
        Seq::empty()
    } else {
        let before = decls_of(items.drop_last());
        match items.last() {
            None => before,
            Some(m) => before.push(DeclView { name: m.0, inline: m.1, path_attr: has_path_attribute(m.2) }),
        }
    }
}

/// The strings that the `path` attributes among `attributes` are set to, in order.
pub open spec fn attribute_paths(attributes: Seq<AttributeSyntax>) -> Seq<Seq<char>>
    decreases attributes.len(),
{
    if attributes.len() == 0 {
        Seq::empty()
    } else {
        let before = attribute_paths(attributes.drop_last());
        let a = attributes.last();
        match a.1 {
            Some(text) => if is_path_attribute(a) {
                before.push(text)
            } else {
                before
            },
            None => before,
        }
    }
}

/// The strings that the `path` attributes of the module declarations among
/// `items` are set to, in order.
pub open spec fn paths_of(items: Seq<Option<ModuleSyntax>>) -> Seq<Seq<char>>
    decreases items.len(),
{
    if items.len() == 0 {
        Seq::empty()
    } else {
        let before = paths_of(items.drop_last());
        match items.last() {
            None => before,
            Some(m) => before + attribute_paths(m.2),
        }
    }
}

/// Whether an attribute identifier is `path`.
fn is_path(ident: &Option<String>) -> (is: bool)
    ensures
        is == (match ident {
            Some(s) => s@ == path_ident(),
            None => false,
        }),
{
    match ident {
        Some(s) => {
            let name = chars_of(s.as_str());
            let path = vec!['p', 'a', 't', 'h'];
            proof {
                assert(path@ =~= path_ident());
            }
            crate::editing::chars_equal(name.as_slice(), path.as_slice())
        },
        None => false,
    }
}

/// Whether `text` parses as a Rust source file.
pub fn is_rust_source(text: &str) -> (ok: bool)
    ensures
        ok == is_rust_file(text@),
{
    parse_file(text).is_ok()
}

/// `registry:file`.
pub open spec fn file_kind() -> Seq<char> {
    seq!['r', 'e', 'g', 'i', 's', 't', 'r', 'y', ':', 'f', 'i', 'l', 'e']
}

/// The collected modules after accepting `files` in order, or why they are refused:
/// each file must be a `registry:file` whose path names a module and which
/// carries Rust text, and a module shared between components must carry the
/// same text each time.
pub open spec fn accept_sources(modules: Map<Seq<char>, Seq<char>>, files: Seq<SourceView>) -> Result<
    Map<Seq<char>, Seq<char>>,
    crate::registry::ErrorView,
>
    decreases files.len(),
{
    if files.len() == 0 {
        Ok(modules)
    } else {
        let f = files[0];
        if f.kind != file_kind() {
            Err(crate::registry::ErrorView::FileKind(f.kind))
        } else {
            match module_name_result(f.path) {
                Err(_) => Err(crate::registry::module_name_error(f.path)),
                Ok(module) => match f.content {
                    None => Err(crate::registry::ErrorView::MissingContent(module)),
                    Some(text) => if !is_rust_file(text) {
                        Err(crate::registry::ErrorView::InvalidSource(module))
                    } else if modules.contains_key(module) && modules[module] != text {
                        Err(crate::registry::ErrorView::ConflictingModule(module))
                    } else {
                        accept_sources(modules.insert(module, text), files.drop_first())
                    },
                },
            }
        }
    }
}

/// The collected modules after accepting the item returned for `requested`:
/// it must carry the requested name and between 1 and 256 files.
pub open spec fn accept_item(
    modules: Map<Seq<char>, Seq<char>>,
    requested: Seq<char>,
    name: Seq<char>,
    files: Seq<SourceView>,
) -> Result<Map<Seq<char>, Seq<char>>, crate::registry::ErrorView> {
    if name != requested {
        Err(crate::registry::ErrorView::NameMismatch(requested, name))
    } else if files.len() == 0 || files.len() > 256 {
        Err(crate::registry::ErrorView::FileCount(requested))
    } else {
        accept_sources(modules, files)
    }
}

/// The entries as a map from module to text.
pub open spec fn entries_map(entries: Entries) -> Map<Seq<char>, Seq<char>> {
    Map::new(|m: Seq<char>| text_of(entries, m) is Some, |m: Seq<char>| text_of(entries, m)->Some_0)
}

/// Collects the source modules of requested components, one registry item
/// at a time, in the order of the requested names.
pub struct FileCollector {
    names: Vec<String>,
    next: usize,
    files: Vec<(String, String)>,
}

impl FileCollector {
    /// The requested names, sorted and each once.
    pub closed spec fn names_spec(&self) -> Seq<Seq<char>> {
        names_of(self.names@)
    }

    /// How many items have been accepted.
    pub closed spec fn next_spec(&self) -> int {
        self.next as int
    }

    /// The modules collected so far.
    pub closed spec fn modules_spec(&self) -> Map<Seq<char>, Seq<char>> {
        entries_map(entries_view(self.files@))
    }

    pub closed spec fn wf(&self) -> bool {
        &&& self.next <= self.names@.len()
        &&& increasing(keys(entries_view(self.files@)))
    }

    /// A collector for `components`, requested in increasing name order, each once.
    pub fn new(components: &Vec<String>) -> (collector: FileCollector)
        ensures
            collector.wf(),
            increasing(collector.names_spec()),
            collector.names_spec().to_set() == names_of(components@).to_set(),
            collector.next_spec() == 0,
            collector.modules_spec() == Map::<Seq<char>, Seq<char>>::empty(),
    {
        let collector = FileCollector { names: sorted_set(components), next: 0, files: Vec::new() };
        proof {
            assert(collector.modules_spec() =~= Map::<Seq<char>, Seq<char>>::empty());
        }
        collector
    }

    /// The name whose item is needed next, if any.
    pub fn next_name(&self) -> (name: Option<String>)
        requires
            self.wf(),
        ensures
            match name {
                Some(n) => self.next_spec() < self.names_spec().len() && n@ == self.names_spec()[self.next_spec()],
                None => self.next_spec() == self.names_spec().len(),
            },
    {
        if self.next < self.names.len() {
            Some(self.names[self.next].clone())
        } else {
            None
        }
    }

    /// Accepts the item the registry returned for the next name (see `accept_item`).
    pub fn accept(&mut self, item: &RegistryItem) -> (r: Result<(), RegistryError>)
        requires
            old(self).wf(),
            old(self).next_spec() < old(self).names_spec().len(),
        ensures
            match accept_item(
                old(self).modules_spec(),
                old(self).names_spec()[old(self).next_spec()],
                item.name@,
                sources_view(item.files@),
            ) {
                Ok(modules) => r is Ok && final(self).wf() && final(self).modules_spec() == modules
                    && final(self).next_spec() == old(self).next_spec() + 1 && final(self).names_spec()
                    == old(self).names_spec(),
                Err(e) => r matches Err(x) && x@ == e,
            },
    {
        let requested = self.names[self.next].clone();
        if item.name != requested {
            return Err(RegistryError::NameMismatch(requested, item.name.clone()));
        }
        if item.files.len() == 0 || item.files.len() > 256 {
            return Err(RegistryError::FileCount(requested));
        }
        let ghost start = self.modules_spec();
        let ghost sources = sources_view(item.files@);
        let count = self.names.len();
        proof {
            assert(accept_item(start, requested@, item.name@, sources) == accept_sources(start, sources));
        }
        let kind = "registry:file".to_owned();
        proof {
            reveal_strlit("registry:file");
            assert(kind@ =~= file_kind());
        }
        let mut i: usize = 0;
        proof {
            assert(sources.skip(0) =~= sources);
        }
        while i < item.files.len()
            invariant
                i <= item.files@.len(),
                sources == sources_view(item.files@),
                kind@ == file_kind(),
                count == self.names@.len(),
                self.next < count,
                increasing(keys(entries_view(self.files@))),
                start == old(self).modules_spec(),
                requested@ == old(self).names_spec()[old(self).next_spec()],
                accept_item(start, requested@, item.name@, sources) == accept_sources(start, sources),
                self.names@ == old(self).names@,
                self.next == old(self).next,
                accept_sources(start, sources) == accept_sources(self.modules_spec(), sources.skip(i as int)),
            decreases item.files@.len() - i,
        {
            let file = &item.files[i];
            proof {
                assert(sources.skip(i as int)[0] == file@);
                assert(sources.skip(i as int).drop_first() =~= sources.skip(i as int + 1));
            }
            if file.kind != kind {
                return Err(RegistryError::FileKind(file.kind.clone()));
            }
            let module = match module_name(file.path.as_str()) {
                Ok(m) => m,
                Err(e) => {
                    return Err(e);
                },
            };
            let text = match &file.content {
                Some(t) => t.clone(),
                None => {
                    return Err(RegistryError::MissingContent(module));
                },
            };
            if !is_rust_source(text.as_str()) {
                return Err(RegistryError::InvalidSource(module));
            }
            let ghost before = self.modules_spec();
            let ghost mv = module@;
            let ghost tv = text@;
            let previous = insert_entry(&mut self.files, module.clone(), text.clone());
            proof {
                assert(self.modules_spec() =~= before.insert(mv, tv));
            }
            match previous {
                Some(p) => {
                    if p != text {
                        return Err(RegistryError::ConflictingModule(module));
                    }
                },
                None => {},
            }
            i = i + 1;
        }
        proof {
            assert(sources.skip(i as int) =~= Seq::<SourceView>::empty());
        }
        self.next = self.next + 1;
        Ok(())
    }

    /// The collected modules, in increasing module order.
    pub fn finish(self) -> (files: Vec<(String, String)>)
        requires
            self.wf(),
        ensures
            increasing(keys(entries_view(files@))),
            entries_map(entries_view(files@)) == self.modules_spec(),
    {
        self.files
    }
}


/// A module declaration found in a parsed file.
pub struct ModuleDecl {
    /// The declared module's name.
    pub name: String,
    /// Whether the declaration has an inline body.
    pub inline: bool,
    /// Whether the declaration carries a `path` attribute.
    pub path_attr: bool,
}

/// A module declaration as plain values.
pub struct DeclView {
    pub name: Seq<char>,
    pub inline: bool,
    pub path_attr: bool,
}

impl View for ModuleDecl {
    type V = DeclView;

    open spec fn view(&self) -> DeclView {
        DeclView { name: self.name@, inline: self.inline, path_attr: self.path_attr }
    }
}

/// The declarations as plain values.
pub open spec fn decls_view(decls: Seq<ModuleDecl>) -> Seq<DeclView> {
    Seq::new(decls.len(), |i: int| decls[i]@)
}

/// The first declaration of a requested module that has an inline body or an
/// alternate path.
pub open spec fn first_unusable(decls: Seq<DeclView>, requested: Set<Seq<char>>) -> Option<Seq<char>>
    decreases decls.len(),
{
    if decls.len() == 0 {
        None
    } else if requested.contains(decls[0].name) && (decls[0].inline || decls[0].path_attr) {
        Some(decls[0].name)
    } else {
        first_unusable(decls.drop_first(), requested)
    }
}

/// The names the declarations declare.
pub open spec fn declared_names(decls: Seq<DeclView>) -> Set<Seq<char>> {
    Set::new(|n: Seq<char>| exists|i: int| 0 <= i < decls.len() && #[trigger] decls[i].name == n)
}

/// `pub mod {module};` and a line break.
pub open spec fn decl_line(module: Seq<char>) -> Seq<char> {
    seq!['p', 'u', 'b', ' ', 'm', 'o', 'd', ' '] + module + seq![';', '\n']
}

/// `text` with a line break added when it is non-empty and does not end in one.
pub open spec fn line_ended(text: Seq<char>) -> Seq<char> {
    if text.len() > 0 && text.last() != '\n' {
        text.push('\n')
    } else {
        text
    }
}

/// `text` with a declaration appended for each of `todo` not yet declared, in order.
pub open spec fn appended_decls(text: Seq<char>, todo: Seq<Seq<char>>, declared: Set<Seq<char>>) -> Seq<char>
    decreases todo.len(),
{
    if todo.len() == 0 {
        text
    } else if declared.contains(todo[0]) {
        appended_decls(text, todo.drop_first(), declared)
    } else {
        appended_decls(line_ended(text) + decl_line(todo[0]), todo.drop_first(), declared.insert(todo[0]))
    }
}

/// The new `mod.rs` text given the declarations it already has: requested
/// modules declared with a body or an alternate path are refused; the others
/// not yet declared are appended as `pub mod` lines in name order.
pub open spec fn declarations_result(existing: Seq<char>, requested: Set<Seq<char>>, decls: Seq<DeclView>) -> Result<
    Seq<char>,
    crate::registry::ErrorView,
> {
    match first_unusable(decls, requested) {
        Some(name) => Err(crate::registry::ErrorView::InlineModule(name)),
        None => Ok(appended_decls(existing, crate::names::sorted_names(requested), declared_names(decls))),
    }
}

/// The new `mod.rs` text (see `declarations_result`) for the declarations
/// `decls` found in `existing`.
pub fn declarations_from(existing: &str, modules: &Vec<String>, decls: &Vec<ModuleDecl>) -> (r: Result<String, RegistryError>)
    ensures
        match declarations_result(existing@, names_of(modules@).to_set(), decls_view(decls@)) {
            Ok(text) => r matches Ok(s) && s@ == text,
            Err(e) => r matches Err(x) && x@ == e,
        },
{
    let requested = sorted_set(modules);
    let ghost req = names_of(modules@).to_set();
    let ghost dv = decls_view(decls@);
    let mut declared: Vec<String> = Vec::new();
    let mut i: usize = 0;
    proof {
        assert(dv.skip(0) =~= dv);
    }
    while i < decls.len()
        invariant
            i <= decls@.len(),
            dv == decls_view(decls@),
            increasing(names_of(requested@)),
            req == names_of(modules@).to_set(),
            names_of(requested@).to_set() == req,
            increasing(names_of(declared@)),
            names_of(declared@).to_set() == declared_names(dv.take(i as int)),
            first_unusable(dv, req) == first_unusable(dv.skip(i as int), req),
        decreases decls@.len() - i,
    {
        let decl = &decls[i];
        proof {
            assert(dv.skip(i as int)[0] == decl@);
            assert(dv.skip(i as int).drop_first() =~= dv.skip(i as int + 1));
        }
        let listed = crate::registry::contains_name(&requested, &decl.name);
        proof {
            assert(names_of(requested@) == crate::registry::names_view(requested@));
            if listed {
                assert(names_of(requested@).contains(decl.name@));
                assert(names_of(requested@).to_set().contains(decl.name@));
                assert(req.contains(decl.name@));
            } else {
                assert(!names_of(requested@).contains(decl.name@));
            }
        }
        if listed && (decl.inline || decl.path_attr) {
            proof {
                assert(first_unusable(dv.skip(i as int), req) == Some(decl.name@));
            }
            return Err(RegistryError::InlineModule(decl.name.clone()));
        }
        crate::names::insert_name(&mut declared, decl.name.clone());
        proof {
            assert(declared_names(dv.take(i as int + 1)) =~= declared_names(dv.take(i as int)).insert(decl.name@)) by {
                assert forall|n: Seq<char>| declared_names(dv.take(i as int + 1)).contains(n) <==> declared_names(
                    dv.take(i as int),
                ).insert(decl.name@).contains(n) by {
                    if declared_names(dv.take(i as int + 1)).contains(n) {
                        let k = choose|k: int| 0 <= k < dv.take(i as int + 1).len() && #[trigger] dv.take(i as int + 1)[k].name == n;
                        if k < i {
                            assert(dv.take(i as int)[k].name == n);
                        }
                    }
                    if declared_names(dv.take(i as int)).contains(n) {
                        let k = choose|k: int| 0 <= k < dv.take(i as int).len() && #[trigger] dv.take(i as int)[k].name == n;
                        assert(dv.take(i as int + 1)[k].name == n);
                    }
                    if n == decl.name@ {
                        assert(dv.take(i as int + 1)[i as int].name == n);
                    }
                }
            }
        }
        i = i + 1;
    }
    proof {
        assert(dv.skip(i as int) =~= Seq::<DeclView>::empty());
        assert(dv.take(i as int) =~= dv);
        crate::names::lemma_sorted_names(names_of(requested@));
    }
    let ghost todo = names_of(requested@);
    let mut text = chars_of(existing);
    let mut k: usize = 0;
    proof {
        assert(todo.skip(0) =~= todo);
    }
    while k < requested.len()
        invariant
            k <= requested@.len(),
            todo == names_of(requested@),
            increasing(names_of(declared@)),
            appended_decls(existing@, todo, declared_names(dv)) == appended_decls(
                text@,
                todo.skip(k as int),
                names_of(declared@).to_set(),
            ),
        decreases requested@.len() - k,
    {
        proof {
            assert(todo.skip(k as int)[0] == requested@[k as int]@);
            assert(todo.skip(k as int).drop_first() =~= todo.skip(k as int + 1));
        }
        let module = requested[k].clone();
        let ghost before = names_of(declared@).to_set();
        if crate::names::insert_name(&mut declared, module.clone()) {
            proof {
                assert(!before.contains(module@)) by {
                    assert(names_of(declared@).to_set() == before.insert(module@));
                }
            }
            let ghost t0 = text@;
            if text.len() > 0 && text[text.len() - 1] != '\n' {
                text.push('\n');
            }
            proof {
                assert(text@ =~= line_ended(t0));
            }
            crate::text::append_str(&mut text, "pub mod ");
            crate::text::append_str(&mut text, module.as_str());
            crate::text::append_str(&mut text, ";\n");
            proof {
                reveal_strlit("pub mod ");
                reveal_strlit(";\n");
                assert(text@ =~= line_ended(t0) + decl_line(module@));
            }
        } else {
            proof {
                assert(before.contains(module@));
            }
        }
        k = k + 1;
    }
    proof {
        assert(todo.skip(k as int) =~= Seq::<Seq<char>>::empty());
    }
    Ok(crate::segmentation::string_from_chars(text.as_slice()))
}


/// The module declarations of a parsed file, in order.
fn module_decls(file: &syn::File) -> (decls: Vec<ModuleDecl>)
    ensures
        decls_view(decls@) == decls_of(file_modules(*file)),
{
    let ghost items = file_modules(*file);
    let count = item_count(file);
    let mut decls: Vec<ModuleDecl> = Vec::new();
    let mut i: usize = 0;
    while i < count
        invariant
            items == file_modules(*file),
            count == items.len(),
            i <= count,
            decls_view(decls@) == decls_of(items.take(i as int)),
        decreases count - i,
    {
        proof {
            assert(items.take(i as int + 1).drop_last() =~= items.take(i as int));
        }
        let ghost before = decls@;
        match module_at(file, i) {
            Some((name, inline)) => {
                let ghost attributes = items[i as int].unwrap().2;
                let n = attribute_count(file, i);
                let mut path_attr = false;
                let mut k: usize = 0;
                while k < n
                    invariant
                        items == file_modules(*file),
                        i < items.len(),
                        items[i as int] is Some,
                        attributes == items[i as int].unwrap().2,
                        n == attributes.len(),
                        k <= n,
                        path_attr == has_path_attribute(attributes.take(k as int)),
                    decreases n - k,
                {
                    let ident = attribute_ident(file, i, k);
                    let hit = is_path(&ident);
                    proof {
                        let next = attributes.take(k as int + 1);
                        assert(next[k as int] == attributes[k as int]);
                        assert(hit == is_path_attribute(attributes[k as int]));
                        if hit {
                            assert(is_path_attribute(next[k as int]));
                        } else if has_path_attribute(next) {
                            let w = choose|w: int| 0 <= w < next.len() && is_path_attribute(#[trigger] next[w]);
                            assert(attributes.take(k as int)[w] == next[w]);
                        }
                        if path_attr {
                            let w = choose|w: int|
                                0 <= w < k && is_path_attribute(#[trigger] attributes.take(k as int)[w]);
                            assert(next[w] == attributes.take(k as int)[w]);
                        }
                    }
                    if hit {
                        path_attr = true;
                    }
                    k = k + 1;
                }
                proof {
                    assert(attributes.take(n as int) =~= attributes);
                }
                decls.push(ModuleDecl { name, inline, path_attr });
                proof {
                    assert(decls_view(decls@) =~= decls_view(before).push(decls@[before.len() as int]@));
                }
            },
            None => {},
        }
        i = i + 1;
    }
    proof {
        assert(items.take(count as int) =~= items);
    }
    decls
}

/// The `mod.rs` text that declares `modules` (see `declarations_result`): the
/// existing text must parse; the declarations it holds are read with `syn`.
pub fn declarations(existing: &str, modules: &Vec<String>) -> (r: Result<String, RegistryError>)
    ensures
        reports_declarations(r, existing@, names_of(modules@).to_set()),
{
    let file = match parse_file(existing) {
        Ok(file) => file,
        Err(_) => {
            return Err(RegistryError::UnparsableModFile);
        },
    };
    let decls = module_decls(&file);
    declarations_from(existing, modules, &decls)
}

/// The module names left after the `path` attributes of `attrs` are applied
/// to `remaining`, or why they are refused: each file's attribute list must
/// have been read (its text parsed), and each path must name a module, which
/// is then not a root.
pub open spec fn roots_after(
    remaining: Set<Seq<char>>,
    modules: Seq<Seq<char>>,
    attrs: Seq<Option<Seq<Seq<char>>>>,
) -> Result<Set<Seq<char>>, crate::registry::ErrorView>
    decreases attrs.len(),
{
    if attrs.len() == 0 || modules.len() == 0 {
        Ok(remaining)
    } else {
        match attrs[0] {
            None => Err(crate::registry::ErrorView::InvalidSource(modules[0])),
            Some(paths) => match paths_removed(remaining, paths) {
                Err(e) => Err(e),
                Ok(r) => roots_after(r, modules.drop_first(), attrs.drop_first()),
            },
        }
    }
}

/// `remaining` without the modules the `paths` name, or the first path that names none.
pub open spec fn paths_removed(remaining: Set<Seq<char>>, paths: Seq<Seq<char>>) -> Result<
    Set<Seq<char>>,
    crate::registry::ErrorView,
>
    decreases paths.len(),
{
    if paths.len() == 0 {
        Ok(remaining)
    } else {
        match module_name_result(paths[0]) {
            Err(_) => Err(crate::registry::module_name_error(paths[0])),
            Ok(m) => paths_removed(remaining.remove(m), paths.drop_first()),
        }
    }
}

/// The attribute strings of a file as plain values.
pub open spec fn attrs_view(attrs: Seq<Option<Vec<String>>>) -> Seq<Option<Seq<Seq<char>>>> {
    Seq::new(
        attrs.len(),
        |i: int|
            match attrs[i] {
                Some(v) => Some(names_of(v@)),
                None => None,
            },
    )
}

/// The modules to declare in `mod.rs`: every collected module except those
/// another module includes through a `path` attribute (see `roots_after`).
/// `attrs[i]` holds the `path` attribute strings of the module declarations
/// of `files[i]`, or `None` when its text does not parse.
pub fn root_modules_from(files: &Vec<(String, String)>, attrs: &Vec<Option<Vec<String>>>) -> (r: Result<
    Vec<String>,
    RegistryError,
>)
    requires
        attrs@.len() == files@.len(),
    ensures
        match roots_after(keys(entries_view(files@)).to_set(), keys(entries_view(files@)), attrs_view(attrs@)) {
            Ok(set) => r matches Ok(v) && increasing(names_of(v@)) && names_of(v@).to_set() == set,
            Err(e) => r matches Err(x) && x@ == e,
        },
{
    let ghost ks = keys(entries_view(files@));
    let ghost av = attrs_view(attrs@);
    let mut names: Vec<String> = Vec::new();
    let mut k: usize = 0;
    while k < files.len()
        invariant
            k <= files@.len(),
            ks == keys(entries_view(files@)),
            ks.len() == files@.len(),
            names@.len() == k,
            names_of(names@) == ks.take(k as int),
        decreases files@.len() - k,
    {
        let name = files[k].0.clone();
        proof {
            assert(ks.len() == files@.len());
            assert(ks[k as int] == entries_view(files@)[k as int].0);
            assert(name@ == ks[k as int]);
        }
        let ghost prev = names@;
        names.push(name);
        proof {
            assert(names@ == prev.push(name));
            assert forall|j: int| 0 <= j < k + 1 implies names_of(names@)[j] == ks.take(k as int + 1)[j] by {
                if j < k {
                    assert(names@[j] == prev[j]);
                    assert(names_of(prev)[j] == ks.take(k as int)[j]);
                }
            }
            assert(names_of(names@) =~= ks.take(k as int + 1));
        }
        k = k + 1;
    }
    proof {
        assert(ks.take(k as int) =~= ks);
        assert(names_of(names@) =~= ks);
    }
    let mut remaining = sorted_set(&names);
    let mut i: usize = 0;
    proof {
        assert(ks.skip(0) =~= ks);
        assert(av.skip(0) =~= av);
    }
    while i < files.len()
        invariant
            i <= files@.len(),
            attrs@.len() == files@.len(),
            ks == keys(entries_view(files@)),
            av == attrs_view(attrs@),
            increasing(names_of(remaining@)),
            roots_after(ks.to_set(), ks, av) == roots_after(
                names_of(remaining@).to_set(),
                ks.skip(i as int),
                av.skip(i as int),
            ),
        decreases files@.len() - i,
    {
        proof {
            assert(ks.skip(i as int)[0] == files@[i as int].0@);
            assert(ks.skip(i as int).drop_first() =~= ks.skip(i as int + 1));
            assert(av.skip(i as int)[0] == av[i as int]);
            assert(av.skip(i as int).drop_first() =~= av.skip(i as int + 1));
        }
        match &attrs[i] {
            None => {
                return Err(RegistryError::InvalidSource(files[i].0.clone()));
            },
            Some(paths) => {
                let ghost ps = names_of(paths@);
                let ghost r0 = names_of(remaining@).to_set();
                proof {
                    assert(av[i as int] == Some(ps));
                }
                let mut j: usize = 0;
                proof {
                    assert(ps.skip(0) =~= ps);
                }
                while j < paths.len()
                    invariant
                        j <= paths@.len(),
                        ps == names_of(paths@),
                        i < files@.len(),
                        attrs@.len() == files@.len(),
                        ks == keys(entries_view(files@)),
                        av == attrs_view(attrs@),
                        increasing(names_of(remaining@)),
                        roots_after(ks.to_set(), ks, av) == match paths_removed(r0, ps) {
                            Err(e) => Err(e),
                            Ok(r) => roots_after(r, ks.skip(i as int + 1), av.skip(i as int + 1)),
                        },
                        paths_removed(r0, ps) == paths_removed(
                            names_of(remaining@).to_set(),
                            ps.skip(j as int),
                        ),
                    decreases paths@.len() - j,
                {
                    proof {
                        assert(ps.skip(j as int)[0] == paths@[j as int]@);
                        assert(ps.skip(j as int).drop_first() =~= ps.skip(j as int + 1));
                    }
                    match module_name(paths[j].as_str()) {
                        Ok(m) => {
                            crate::names::remove_name(&mut remaining, &m);
                        },
                        Err(e) => {
                            return Err(e);
                        },
                    }
                    j = j + 1;
                }
                proof {
                    assert(ps.skip(j as int) =~= Seq::<Seq<char>>::empty());
                }
            },
        }
        i = i + 1;
    }
    proof {
        assert(av.skip(i as int) =~= Seq::<Option<Seq<Seq<char>>>>::empty());
    }
    Ok(remaining)
}


/// The `path` attribute strings of the module declarations of a parsed file, in order.
fn path_attributes(file: &syn::File) -> (paths: Vec<String>)
    ensures
        names_of(paths@) == paths_of(file_modules(*file)),
{
    let ghost items = file_modules(*file);
    let count = item_count(file);
    let mut paths: Vec<String> = Vec::new();
    let mut i: usize = 0;
    while i < count
        invariant
            items == file_modules(*file),
            count == items.len(),
            i <= count,
            names_of(paths@) == paths_of(items.take(i as int)),
        decreases count - i,
    {
        proof {
            assert(items.take(i as int + 1).drop_last() =~= items.take(i as int));
        }
        match module_at(file, i) {
            Some(_) => {
                let ghost attributes = items[i as int].unwrap().2;
                let ghost start = names_of(paths@);
                let n = attribute_count(file, i);
                let mut k: usize = 0;
                while k < n
                    invariant
                        items == file_modules(*file),
                        i < items.len(),
                        items[i as int] is Some,
                        attributes == items[i as int].unwrap().2,
                        n == attributes.len(),
                        k <= n,
                        names_of(paths@) == start + attribute_paths(attributes.take(k as int)),
                    decreases n - k,
                {
                    proof {
                        assert(attributes.take(k as int + 1).drop_last() =~= attributes.take(k as int));
                        assert(attributes.take(k as int + 1).last() == attributes[k as int]);
                    }
                    let ident = attribute_ident(file, i, k);
                    if is_path(&ident) {
                        match attribute_string(file, i, k) {
                            Some(value) => {
                                let ghost old_paths = paths@;
                                paths.push(value);
                                proof {
                                    assert(names_of(paths@) =~= names_of(old_paths).push(value@));
                                }
                            },
                            None => {},
                        }
                    }
                    proof {
                        assert(start + attribute_paths(attributes.take(k as int + 1)) =~= names_of(paths@));
                    }
                    k = k + 1;
                }
                proof {
                    assert(attributes.take(n as int) =~= attributes);
                }
            },
            None => {
                proof {
                    assert(paths_of(items.take(i as int + 1)) =~= paths_of(items.take(i as int)));
                }
            },
        }
        i = i + 1;
    }
    proof {
        assert(items.take(count as int) =~= items);
    }
    paths
}

/// The modules to declare in `mod.rs` (see `root_modules_from`); each
/// module's text is parsed with `syn` to read its `path` attributes.
pub fn root_modules(files: &Vec<(String, String)>) -> (r: Result<Vec<String>, RegistryError>)
    ensures
        match roots_after(keys(entries_view(files@)).to_set(), keys(entries_view(files@)), file_paths(files@)) {
            Ok(set) => r matches Ok(v) && increasing(names_of(v@)) && names_of(v@).to_set() == set,
            Err(e) => r matches Err(x) && x@ == e,
        },
{
    let mut attrs: Vec<Option<Vec<String>>> = Vec::new();
    let mut i: usize = 0;
    while i < files.len()
        invariant
            i <= files@.len(),
            attrs@.len() == i,
            forall|j: int| 0 <= j < i ==> #[trigger] attrs_view(attrs@)[j] == file_paths(files@)[j],
        decreases files@.len() - i,
    {
        let ghost before = attrs@;
        match parse_file(files[i].1.as_str()) {
            Ok(file) => attrs.push(Some(path_attributes(&file))),
            Err(_) => attrs.push(None),
        }
        proof {
            assert forall|j: int| 0 <= j <= i implies #[trigger] attrs_view(attrs@)[j] == file_paths(files@)[j] by {
                if j < i {
                    assert(attrs@[j] == before[j]);
                    assert(attrs_view(before)[j] == file_paths(files@)[j]);
                }
            }
        }
        i = i + 1;
    }
    proof {
        assert(attrs_view(attrs@) =~= file_paths(files@));
    }
    root_modules_from(files, &attrs)
}

/// The `path` attribute strings of the module declarations of each file's
/// text, or `None` where the text does not parse.
pub open spec fn file_paths(files: Seq<(String, String)>) -> Seq<Option<Seq<Seq<char>>>> {
    Seq::new(
        files.len(),
        |i: int|
            if is_rust_file(files[i].1@) {
                Some(paths_of(parsed_modules(files[i].1@)))
            } else {
                None
            },
    )
}

/// Whether `r` reports the `mod.rs` text that declares the module set `roots`
/// into `existing`, reading the declarations that `existing` holds: refused
/// when `existing` does not parse, else as `declarations_result` says.
pub open spec fn reports_declarations(r: Result<String, RegistryError>, existing: Seq<char>, roots: Set<Seq<char>>) -> bool {
    &&& !is_rust_file(existing) ==> (r matches Err(RegistryError::UnparsableModFile))
    &&& is_rust_file(existing) ==> match declarations_result(existing, roots, decls_of(parsed_modules(existing))) {
        Ok(text) => r matches Ok(s) && s@ == text,
        Err(e) => r matches Err(x) && x@ == e,
    }
}

/// The new `mod.rs` text of an installation: the root modules of `files`
/// (see `root_modules`) declared into `existing_mod` (see `declarations`).
pub fn mod_update(files: &Vec<(String, String)>, existing_mod: &str) -> (r: Result<String, RegistryError>)
    ensures
        files@.len() == 0 ==> r matches Err(RegistryError::NoSources),
        files@.len() > 0 ==> match roots_after(
            keys(entries_view(files@)).to_set(),
            keys(entries_view(files@)),
            file_paths(files@),
        ) {
            Ok(set) => reports_declarations(r, existing_mod@, set),
            Err(e) => r matches Err(x) && x@ == e,
        },
{
    if files.len() == 0 {
        return Err(RegistryError::NoSources);
    }
    let roots = match root_modules(files) {
        Ok(roots) => roots,
        Err(e) => {
            return Err(e);
        },
    };
    declarations(existing_mod, &roots)
}

/// Where a planned write goes.
pub enum InstallTarget {
    /// The module's source file.
    Module(String),
    /// The output directory's `mod.rs`.
    ModFile,
}

/// One file an installation writes.
pub struct PlannedWrite {
    /// Where the text goes.
    pub target: InstallTarget,
    /// The text.
    pub content: String,
    /// Whether a file is replaced (else it must not exist yet).
    pub replace: bool,
}

/// What an installation does: the modules it keeps because they differ and
/// may not be overwritten, and the files it writes, `mod.rs` last.
pub struct InstallPlan {
    pub kept: Vec<String>,
    pub writes: Vec<PlannedWrite>,
}

/// A planned write as plain values: `None` for `mod.rs`.
pub struct WriteView {
    pub module: Option<Seq<char>>,
    pub content: Seq<char>,
    pub replace: bool,
}

impl View for PlannedWrite {
    type V = WriteView;

    open spec fn view(&self) -> WriteView {
        WriteView {
            module: match self.target {
                InstallTarget::Module(m) => Some(m@),
                InstallTarget::ModFile => None,
            },
            content: self.content@,
            replace: self.replace,
        }
    }
}

/// The writes as plain values.
pub open spec fn writes_view(writes: Seq<PlannedWrite>) -> Seq<WriteView> {
    Seq::new(writes.len(), |i: int| writes[i]@)
}

/// The existing file contents as plain values.
pub open spec fn existing_view(existing: Seq<Option<Vec<u8>>>) -> Seq<Option<Seq<u8>>> {
    Seq::new(
        existing.len(),
        |i: int|
            match existing[i] {
                Some(b) => Some(b@),
                None => None,
            },
    )
}

/// The modules kept and the module writes for `entries` whose files currently
/// hold `existing`: a file already holding the module's text is left alone; a
/// different existing file is kept unless `overwrite`; otherwise the module is
/// written, replacing a file that exists.
pub open spec fn planned_modules(entries: Entries, existing: Seq<Option<Seq<u8>>>, overwrite: bool) -> (
    Seq<Seq<char>>,
    Seq<WriteView>,
)
    decreases entries.len(),
{
    if entries.len() == 0 || existing.len() == 0 {
        (Seq::empty(), Seq::empty())
    } else {
        let (kept, writes) = planned_modules(entries.drop_last(), existing.drop_last(), overwrite);
        let (module, text) = entries.last();
        let current = existing.last();
        if current == Some(vstd::utf8::encode_utf8(text)) {
            (kept, writes)
        } else if current is Some && !overwrite {
            (kept.push(module), writes)
        } else {
            (kept, writes.push(WriteView { module: Some(module), content: text, replace: current is Some }))
        }
    }
}

fn same_bytes(a: &Vec<u8>, b: &[u8]) -> (same: bool)
    ensures
        same == (a@ == b@),
{
    if a.len() != b.len() {
        return false;
    }
    let mut i: usize = 0;
    while i < a.len()
        invariant
            a@.len() == b@.len(),
            i <= a@.len(),
            forall|j: int| 0 <= j < i ==> a@[j] == b@[j],
        decreases a@.len() - i,
    {
        if a[i] != b[i] {
            return false;
        }
        i = i + 1;
    }
    proof {
        assert(a@ =~= b@);
    }
    true
}

/// The plan of an installation (see `planned_modules`); `mod.rs` is written
/// last when its text changes.
pub fn plan_writes(
    files: &Vec<(String, String)>,
    existing: &Vec<Option<Vec<u8>>>,
    existing_mod: &Vec<u8>,
    updated_mod: String,
    overwrite: bool,
) -> (plan: InstallPlan)
    requires
        existing@.len() == files@.len(),
    ensures
        ({
            let (kept, writes) = planned_modules(entries_view(files@), existing_view(existing@), overwrite);
            &&& names_of(plan.kept@) == kept
            &&& writes_view(plan.writes@) == if existing_mod@ == vstd::utf8::encode_utf8(updated_mod@) {
                writes
            } else {
                writes.push(WriteView { module: None, content: updated_mod@, replace: true })
            }
        }),
{
    let ghost entries = entries_view(files@);
    let ghost ev = existing_view(existing@);
    let mut kept: Vec<String> = Vec::new();
    let mut writes: Vec<PlannedWrite> = Vec::new();
    let mut i: usize = 0;
    while i < files.len()
        invariant
            i <= files@.len(),
            existing@.len() == files@.len(),
            entries == entries_view(files@),
            ev == existing_view(existing@),
            (names_of(kept@), writes_view(writes@)) == planned_modules(
                entries.take(i as int),
                ev.take(i as int),
                overwrite,
            ),
        decreases files@.len() - i,
    {
        proof {
            assert(entries.take(i as int + 1).drop_last() =~= entries.take(i as int));
            assert(ev.take(i as int + 1).drop_last() =~= ev.take(i as int));
            assert(entries.take(i as int + 1).last() == (files@[i as int].0@, files@[i as int].1@));
            assert(ev.take(i as int + 1).last() == ev[i as int]);
        }
        let module = &files[i].0;
        let text = &files[i].1;
        let same = match &existing[i] {
            Some(bytes) => same_bytes(bytes, text.as_str().as_bytes()),
            None => false,
        };
        let present = existing[i].is_some();
        let ghost k0 = kept@;
        let ghost w0 = writes@;
        if same {
        } else if present && !overwrite {
            kept.push(module.clone());
            proof {
                assert(names_of(kept@) =~= names_of(k0).push(module@));
            }
        } else {
            writes.push(PlannedWrite { target: InstallTarget::Module(module.clone()), content: text.clone(), replace: present });
            proof {
                assert(writes_view(writes@) =~= writes_view(w0).push(
                    WriteView { module: Some(module@), content: text@, replace: present },
                ));
            }
        }
        i = i + 1;
    }
    proof {
        assert(entries.take(i as int) =~= entries);
        assert(ev.take(i as int) =~= ev);
    }
    if !same_bytes(existing_mod, updated_mod.as_str().as_bytes()) {
        let ghost w0 = writes@;
        let content = updated_mod;
        let ghost cv = content@;
        writes.push(PlannedWrite { target: InstallTarget::ModFile, content, replace: true });
        proof {
            assert(writes_view(writes@) =~= writes_view(w0).push(WriteView { module: None, content: cv, replace: true }));
        }
    }
    InstallPlan { kept, writes }
}


/// Without `overwrite`, an installation never replaces an existing module
/// file; with it, it keeps none. Every module it writes is one of the
/// collected modules, named from the registry path and never from the
/// registry's target.
pub proof fn lemma_edits_are_kept(entries: Entries, existing: Seq<Option<Seq<u8>>>, overwrite: bool)
    ensures
        ({
            let (kept, writes) = planned_modules(entries, existing, overwrite);
            &&& !overwrite ==> forall|i: int| 0 <= i < writes.len() ==> !(#[trigger] writes[i]).replace
            &&& overwrite ==> kept.len() == 0
            &&& forall|i: int|
                0 <= i < writes.len() ==> ((#[trigger] writes[i]).module matches Some(m) && keys(
                    entries,
                ).contains(m))
        }),
    decreases entries.len(),
{
    if entries.len() > 0 && existing.len() > 0 {
        let rest = entries.drop_last();
        lemma_edits_are_kept(rest, existing.drop_last(), overwrite);
        let (kept, writes) = planned_modules(rest, existing.drop_last(), overwrite);
        assert forall|m: Seq<char>| keys(rest).contains(m) implies keys(entries).contains(m) by {
            let k = choose|k: int| 0 <= k < keys(rest).len() && keys(rest)[k] == m;
            assert(keys(entries)[k] == m);
        }
        assert(keys(entries)[entries.len() - 1] == entries.last().0);
    }
}

proof fn lemma_appended_extends(text: Seq<char>, todo: Seq<Seq<char>>, declared: Set<Seq<char>>)
    ensures
        appended_decls(text, todo, declared).len() >= text.len(),
        appended_decls(text, todo, declared).take(text.len() as int) == text,
    decreases todo.len(),
{
    if todo.len() > 0 {
        if declared.contains(todo[0]) {
            lemma_appended_extends(text, todo.drop_first(), declared);
        } else {
            let next = line_ended(text) + decl_line(todo[0]);
            lemma_appended_extends(next, todo.drop_first(), declared.insert(todo[0]));
            let out = appended_decls(text, todo, declared);
            assert(next.take(text.len() as int) =~= text);
            assert(out.take(text.len() as int) =~= out.take(next.len() as int).take(text.len() as int));
        }
    }
}

/// Declaring modules keeps the existing `mod.rs` text as it is and only appends to it.
pub proof fn lemma_declarations_keep_existing(existing: Seq<char>, requested: Set<Seq<char>>, decls: Seq<DeclView>)
    ensures
        declarations_result(existing, requested, decls) matches Ok(text) ==> (text.len() >= existing.len()
            && text.take(existing.len() as int) == existing),
{
    if first_unusable(decls, requested) is None {
        lemma_appended_extends(existing, crate::names::sorted_names(requested), declared_names(decls));
    }
}


/// Installing again over files that already hold the modules' texts writes
/// and keeps nothing.
pub proof fn lemma_reinstall_writes_nothing(entries: Entries, overwrite: bool)
    ensures
        planned_modules(
            entries,
            Seq::new(entries.len(), |i: int| Some(vstd::utf8::encode_utf8(entries[i].1))),
            overwrite,
        ) == (Seq::<Seq<char>>::empty(), Seq::<WriteView>::empty()),
    decreases entries.len(),
{
    if entries.len() > 0 {
        let current = Seq::new(entries.len(), |i: int| Some(vstd::utf8::encode_utf8(entries[i].1)));
        let rest = entries.drop_last();
        assert(current.drop_last() =~= Seq::new(rest.len(), |i: int| Some(vstd::utf8::encode_utf8(rest[i].1))));
        lemma_reinstall_writes_nothing(rest, overwrite);
    }
}

/// Declaring modules that `mod.rs` already declares leaves its text unchanged.
pub proof fn lemma_declared_modules_unchanged(text: Seq<char>, todo: Seq<Seq<char>>, declared: Set<Seq<char>>)
    requires
        forall|i: int| 0 <= i < todo.len() ==> declared.contains(#[trigger] todo[i]),
    ensures
        appended_decls(text, todo, declared) == text,
    decreases todo.len(),
{
    if todo.len() > 0 {
        assert(declared.contains(todo[0]));
        let rest = todo.drop_first();
        assert forall|i: int| 0 <= i < rest.len() implies declared.contains(#[trigger] rest[i]) by {
            assert(rest[i] == todo[i + 1]);
        }
        lemma_declared_modules_unchanged(text, rest, declared);
    }
}

} // verus!
