//! Building the published registry from the source tree: which components
//! exist, the order they are built in, and the registry item of each.
use crate::install::{RegistryIndex, RegistryItem, SourceFile, file_kind};
use crate::names::{increasing, names_of};
use crate::registry::{
    ErrorView, Manifest, Metadata, RegistryError, is_valid_name, module_name, module_name_error,
    module_name_result, theme_name, valid_name,
};
use crate::segmentation::string_from_chars;
use crate::text::chars_of;
use vstd::prelude::*;

verus! {

/// The first name among `names` that is not a valid component name with a
/// source directory in `available`.
pub open spec fn first_invalid(names: Seq<Seq<char>>, available: Seq<Seq<char>>) -> Option<Seq<char>>
    decreases names.len(),
{
    if names.len() == 0 {
        None
    } else if !(is_valid_name(names[0]) && available.contains(names[0])) {
        Some(names[0])
    } else {
        first_invalid(names.drop_first(), available)
    }
}

/// The component names of a manifest, in its order.
pub open spec fn manifest_names(manifest: &Manifest) -> Seq<Seq<char>> {
    Seq::new(manifest.components@.len(), |i: int| manifest.components@[i].0@)
}

/// Checks the source directories (`available`) and then the manifest's
/// components: each must be a valid name with a source directory.
pub fn validate_components(available: &Vec<String>, manifest: &Manifest) -> (r: Result<(), RegistryError>)
    ensures
        match first_invalid(names_of(available@) + manifest_names(manifest), names_of(available@)) {
            Some(name) => r matches Err(RegistryError::InvalidComponent(n)) && n@ == name,
            None => r is Ok,
        },
{
    let ghost avail = names_of(available@);
    let ghost all = avail + manifest_names(manifest);
    let mut names: Vec<String> = Vec::new();
    let mut i: usize = 0;
    while i < available.len()
        invariant
            i <= available@.len(),
            names@.len() == i,
            names_of(names@) == avail.take(i as int),
            avail == names_of(available@),
        decreases available@.len() - i,
    {
        let ghost prev = names@;
        names.push(available[i].clone());
        proof {
            assert forall|j: int| 0 <= j < i + 1 implies names_of(names@)[j] == avail.take(i as int + 1)[j] by {
                if j < i {
                    assert(names@[j] == prev[j]);
                    assert(names_of(prev)[j] == avail.take(i as int)[j]);
                }
            }
            assert(names_of(names@) =~= avail.take(i as int + 1));
        }
        i = i + 1;
    }
    let mut k: usize = 0;
    while k < manifest.components.len()
        invariant
            k <= manifest.components@.len(),
            names@.len() == avail.len() + k,
            names_of(names@) == all.take(avail.len() + k),
            avail == names_of(available@),
            all == avail + manifest_names(manifest),
        decreases manifest.components@.len() - k,
    {
        let ghost prev = names@;
        names.push(manifest.components[k].0.clone());
        proof {
            assert forall|j: int| 0 <= j < names@.len() implies names_of(names@)[j] == all.take(
                avail.len() + k + 1,
            )[j] by {
                if j < prev.len() {
                    assert(names@[j] == prev[j]);
                    assert(names_of(prev)[j] == all.take(avail.len() + k)[j]);
                }
            }
            assert(names_of(names@) =~= all.take(avail.len() + k + 1));
        }
        k = k + 1;
    }
    proof {
        assert(all.take(avail.len() + k) =~= all);
        assert(avail.take(i as int) =~= avail);
    }
    let mut j: usize = 0;
    proof {
        assert(all.skip(0) =~= all);
    }
    while j < names.len()
        invariant
            j <= names@.len(),
            names_of(names@) == all,
            avail == names_of(available@),
            all == avail + manifest_names(manifest),
            first_invalid(all, avail) == first_invalid(all.skip(j as int), avail),
        decreases names@.len() - j,
    {
        proof {
            assert(all.skip(j as int)[0] == names@[j as int]@);
            assert(all.skip(j as int).drop_first() =~= all.skip(j as int + 1));
        }
        let listed = crate::registry::contains_name(available, &names[j]);
        proof {
            assert(crate::registry::names_view(available@) =~= avail);
        }
        if !(valid_name(names[j].as_str()) && listed) {
            return Err(RegistryError::InvalidComponent(names[j].clone()));
        }
        j = j + 1;
    }
    proof {
        assert(all.skip(j as int) =~= Seq::<Seq<char>>::empty());
    }
    Ok(())
}

/// The build order: `theme` first, then the other components in their order.
pub open spec fn build_order_of(available: Seq<Seq<char>>) -> Seq<Seq<char>> {
    available.filter(|n: Seq<char>| n == theme_name()) + available.filter(|n: Seq<char>| n != theme_name())
}

/// The components in build order (see `build_order_of`).
pub fn build_order(available: &Vec<String>) -> (order: Vec<String>)
    ensures
        names_of(order@) == build_order_of(names_of(available@)),
{
    let ghost avail = names_of(available@);
    let theme = "theme".to_owned();
    proof {
        reveal_strlit("theme");
        assert(theme@ =~= theme_name());
    }
    let mut first: Vec<String> = Vec::new();
    let mut rest: Vec<String> = Vec::new();
    let mut i: usize = 0;
    while i < available.len()
        invariant
            i <= available@.len(),
            avail == names_of(available@),
            theme@ == theme_name(),
            names_of(first@) == avail.take(i as int).filter(|n: Seq<char>| n == theme_name()),
            names_of(rest@) == avail.take(i as int).filter(|n: Seq<char>| n != theme_name()),
        decreases available@.len() - i,
    {
        let ghost f0 = first@;
        let ghost r0 = rest@;
        proof {
            assert(avail.take(i as int + 1).drop_last() =~= avail.take(i as int));
            assert(avail.take(i as int + 1).last() == available@[i as int]@);
            reveal(Seq::filter);
        }
        if available[i] == theme {
            first.push(available[i].clone());
            proof {
                assert(names_of(first@) =~= names_of(f0).push(available@[i as int]@));
            }
        } else {
            rest.push(available[i].clone());
            proof {
                assert(names_of(rest@) =~= names_of(r0).push(available@[i as int]@));
            }
        }
        i = i + 1;
    }
    proof {
        assert(avail.take(i as int) =~= avail);
    }
    let ghost f1 = first@;
    let mut k: usize = 0;
    while k < rest.len()
        invariant
            k <= rest@.len(),
            names_of(first@) == names_of(f1) + names_of(rest@).take(k as int),
        decreases rest@.len() - k,
    {
        let ghost p = first@;
        first.push(rest[k].clone());
        proof {
            assert(names_of(rest@).take(k as int + 1) =~= names_of(rest@).take(k as int).push(rest@[k as int]@));
            assert(names_of(first@) =~= names_of(p).push(rest@[k as int]@));
        }
        k = k + 1;
    }
    proof {
        assert(names_of(rest@).take(k as int) =~= names_of(rest@));
    }
    first
}


/// `A` to `Z`.
pub open spec fn capitals() -> Seq<char> {
    seq!['A', 'B', 'C', 'D', 'E', 'F', 'G', 'H', 'I', 'J', 'K', 'L', 'M', 'N', 'O', 'P', 'Q', 'R', 'S', 'T', 'U', 'V', 'W', 'X', 'Y', 'Z']
}

/// `a` to `z`.
pub open spec fn smalls() -> Seq<char> {
    seq!['a', 'b', 'c', 'd', 'e', 'f', 'g', 'h', 'i', 'j', 'k', 'l', 'm', 'n', 'o', 'p', 'q', 'r', 's', 't', 'u', 'v', 'w', 'x', 'y', 'z']
}

/// The capital of an ASCII lowercase letter; other characters are unchanged.
pub open spec fn ascii_upper(c: char) -> char {
    if smalls().contains(c) {
        capitals()[smalls().index_of(c)]
    } else {
        c
    }
}

/// The title of the rest of a name: `_` separates words, empty words are
/// dropped, words are joined by one space and each begins with a capital.
/// `started`: a word was already written; `at_start`: the next letter begins a word.
pub open spec fn title_words(rest: Seq<char>, started: bool, at_start: bool) -> Seq<char>
    decreases rest.len(),
{
    if rest.len() == 0 {
        Seq::empty()
    } else if rest[0] == '_' {
        title_words(rest.drop_first(), started, true)
    } else if at_start {
        (if started {
            seq![' ']
        } else {
            Seq::empty()
        }) + seq![ascii_upper(rest[0])] + title_words(rest.drop_first(), true, false)
    } else {
        seq![rest[0]] + title_words(rest.drop_first(), true, false)
    }
}

/// The default title of a component: its `_`-separated words, capitalized and
/// joined by spaces.
pub open spec fn default_title(name: Seq<char>) -> Seq<char> {
    title_words(name, false, true)
}

/// The published name of a component: `_` becomes `-`.
pub open spec fn dashed(name: Seq<char>) -> Seq<char> {
    Seq::new(name.len(), |i: int| if name[i] == '_' { '-' } else { name[i] })
}

fn upper_ascii(c: char) -> (u: char)
    ensures
        u == ascii_upper(c),
{
    let small = chars_of("abcdefghijklmnopqrstuvwxyz");
    let capital = chars_of("ABCDEFGHIJKLMNOPQRSTUVWXYZ");
    proof {
        reveal_strlit("abcdefghijklmnopqrstuvwxyz");
        reveal_strlit("ABCDEFGHIJKLMNOPQRSTUVWXYZ");
        assert(small@ =~= smalls());
        assert(capital@ =~= capitals());
    }
    let mut i: usize = 0;
    while i < small.len()
        invariant
            small@ == smalls(),
            capital@ == capitals(),
            i <= small@.len(),
            forall|j: int| 0 <= j < i ==> small@[j] != c,
        decreases small@.len() - i,
    {
        if small[i] == c {
            proof {
                assert(smalls().contains(c));
                assert forall|j: int| 0 <= j < smalls().len() && smalls()[j] == c implies j == i by {
                    if j != i {
                        assert(smalls()[j] != smalls()[i as int]);
                    }
                }
                let k = smalls().index_of(c);
                assert(smalls()[k] == c);
            }
            return capital[i];
        }
        i = i + 1;
    }
    proof {
        assert(!smalls().contains(c));
    }
    c
}

/// The default title of a component (see `default_title`).
pub fn component_title(name: &str) -> (title: String)
    ensures
        title@ == default_title(name@),
{
    let chars = chars_of(name);
    let mut out: Vec<char> = Vec::new();
    let mut started = false;
    let mut at_start = true;
    let mut i: usize = 0;
    proof {
        assert(chars@.skip(0) =~= chars@);
    }
    while i < chars.len()
        invariant
            chars@ == name@,
            i <= chars@.len(),
            default_title(name@) == out@ + title_words(chars@.skip(i as int), started, at_start),
        decreases chars@.len() - i,
    {
        let c = chars[i];
        proof {
            assert(chars@.skip(i as int)[0] == c);
            assert(chars@.skip(i as int).drop_first() =~= chars@.skip(i as int + 1));
        }
        let ghost o0 = out@;
        let ghost s0 = started;
        if c == '_' {
            at_start = true;
        } else if at_start {
            if started {
                out.push(' ');
            }
            out.push(upper_ascii(c));
            started = true;
            at_start = false;
            proof {
                assert(out@ =~= o0 + (if s0 {
                    seq![' ']
                } else {
                    Seq::<char>::empty()
                }) + seq![ascii_upper(c)]);
                assert(o0 + ((if s0 {
                    seq![' ']
                } else {
                    Seq::<char>::empty()
                }) + seq![ascii_upper(c)] + title_words(chars@.skip(i as int + 1), true, false)) =~= out@
                    + title_words(chars@.skip(i as int + 1), true, false));
            }
        } else {
            out.push(c);
            started = true;
            proof {
                assert(o0 + (seq![c] + title_words(chars@.skip(i as int + 1), true, false)) =~= out@
                    + title_words(chars@.skip(i as int + 1), true, false));
            }
        }
        i = i + 1;
    }
    proof {
        assert(chars@.skip(i as int) =~= Seq::<char>::empty());
        assert(out@ + Seq::<char>::empty() =~= out@);
    }
    string_from_chars(out.as_slice())
}

/// The published name of a component (see `dashed`).
pub fn published_name(name: &str) -> (published: String)
    ensures
        published@ == dashed(name@),
{
    let chars = chars_of(name);
    let mut out: Vec<char> = Vec::new();
    let mut i: usize = 0;
    while i < chars.len()
        invariant
            chars@ == name@,
            i <= chars@.len(),
            out@ == dashed(name@).take(i as int),
        decreases chars@.len() - i,
    {
        out.push(if chars[i] == '_' { '-' } else { chars[i] });
        proof {
            assert(out@ =~= dashed(name@).take(i as int + 1));
        }
        i = i + 1;
    }
    proof {
        assert(dashed(name@).take(i as int) =~= dashed(name@));
    }
    string_from_chars(out.as_slice())
}

/// Whether a directory entry is a Rust source file: its name has the `rs`
/// extension (`Path::extension`), so it ends in `.rs` after a non-empty stem.
pub fn is_rust_filename(filename: &str) -> (rust: bool)
    ensures
        rust == (filename@.len() > 3 && filename@.skip(filename@.len() - 3) == seq!['.', 'r', 's']),
{
    let chars = chars_of(filename);
    let n = chars.len();
    let rust = n > 3 && chars[n - 3] == '.' && chars[n - 2] == 'r' && chars[n - 1] == 's';
    proof {
        if n > 3 {
            let tail = chars@.skip(n - 3);
            assert(tail[0] == chars@[n - 3] && tail[1] == chars@[n - 2] && tail[2] == chars@[n - 1]);
            if rust {
                assert(tail =~= seq!['.', 'r', 's']);
            }
        }
    }
    rust
}


/// A source file of a built item as plain values.
pub struct BuiltSource {
    pub path: Seq<char>,
    pub target: Seq<char>,
    pub content: Seq<char>,
}

/// `registry/{dependency}/{filename}`.
pub open spec fn source_path(dependency: Seq<char>, filename: Seq<char>) -> Seq<char> {
    "registry/"@ + dependency + "/"@ + filename
}

/// `~/src/ui/{filename}`.
pub open spec fn source_target(filename: Seq<char>) -> Seq<char> {
    "~/src/ui/"@ + filename
}

/// The source files of an item built from `(dependency, filename, text)`
/// sources in order, or why they are refused: each path must name a module,
/// and no two files may install as the same module.
pub open spec fn built_sources(sources: Seq<(Seq<char>, Seq<char>, Seq<char>)>, seen: Set<Seq<char>>) -> Result<
    Seq<BuiltSource>,
    ErrorView,
>
    decreases sources.len(),
{
    if sources.len() == 0 {
        Ok(Seq::empty())
    } else {
        let (dependency, filename, text) = sources[0];
        let path = source_path(dependency, filename);
        match module_name_result(path) {
            Err(_) => Err(module_name_error(path)),
            Ok(module) => if seen.contains(module) {
                Err(ErrorView::DuplicateModule(module))
            } else {
                match built_sources(sources.drop_first(), seen.insert(module)) {
                    Err(e) => Err(e),
                    Ok(rest) => Ok(
                        seq![BuiltSource { path, target: source_target(filename), content: text }] + rest,
                    ),
                }
            },
        }
    }
}

/// The sources as plain values.
pub open spec fn triples_view(sources: Seq<(String, String, String)>) -> Seq<(Seq<char>, Seq<char>, Seq<char>)> {
    Seq::new(sources.len(), |i: int| (sources[i].0@, sources[i].1@, sources[i].2@))
}

/// The published form of a built source file.
pub open spec fn published_source(b: BuiltSource) -> crate::install::SourceView {
    crate::install::SourceView {
        path: b.path,
        kind: file_kind(),
        target: b.target,
        content: Some(b.content),
    }
}

/// The title of a component: the manifest's, else the default one.
pub open spec fn title_for(name: Seq<char>, title: Option<Seq<char>>) -> Seq<char> {
    match title {
        Some(t) => t,
        None => default_title(name),
    }
}

/// The description of a component: the manifest's, else the default one.
pub open spec fn description_for(title: Seq<char>, description: Option<Seq<char>>) -> Seq<char> {
    match description {
        Some(d) => d,
        None => "The shadcn default "@ + title + " visual port backed by Base GPUI behavior."@,
    }
}

fn text_of_str(text: &str) -> (s: String)
    ensures
        s@ == text@,
{
    text.to_owned()
}

/// The registry item of component `name` from its sources (the `.rs` files of
/// each resolved dependency, in order) and its manifest metadata.
pub fn build_item(name: &str, metadata: Option<&Metadata>, sources: &Vec<(String, String, String)>) -> (r: Result<
    RegistryItem,
    RegistryError,
>)
    ensures
        match built_sources(triples_view(sources@), Set::empty()) {
            Err(e) => r matches Err(x) && x@ == e,
            Ok(files) => r matches Ok(item) && {
                let title = title_for(
                    name@,
                    match metadata {
                        Some(m) => match m.title {
                            Some(t) => Some(t@),
                            None => None,
                        },
                        None => None,
                    },
                );
                &&& item.name@ == dashed(name@)
                &&& item.kind@ == "registry:item"@
                &&& item.schema matches Some(s) && s@ == "https://ui.shadcn.com/schema/registry-item.json"@
                &&& item.title@ == title
                &&& item.description@ == description_for(
                    title,
                    match metadata {
                        Some(m) => match m.description {
                            Some(d) => Some(d@),
                            None => None,
                        },
                        None => None,
                    },
                )
                &&& crate::install::sources_view(item.files@) == files.map_values(|b: BuiltSource| published_source(b))
            },
        },
{
    let ghost all = triples_view(sources@);
    let mut files: Vec<SourceFile> = Vec::new();
    let mut seen: Vec<String> = Vec::new();
    let mut i: usize = 0;
    let kind = text_of_str("registry:file");
    proof {
        reveal_strlit("registry:file");
        assert(kind@ =~= file_kind());
        assert(all.skip(0) =~= all);
        assert(names_of(seen@).to_set() =~= Set::<Seq<char>>::empty());
        let acc = Seq::new(
            files@.len(),
            |k: int|
                BuiltSource {
                    path: files@[k].path@,
                    target: files@[k].target@,
                    content: files@[k].content->Some_0@,
                },
        );
        assert(acc =~= Seq::<BuiltSource>::empty());
        match built_sources(all, Set::empty()) {
            Ok(r) => {
                assert(acc + r =~= r);
            },
            Err(_) => {},
        }
    }
    while i < sources.len()
        invariant
            i <= sources@.len(),
            all == triples_view(sources@),
            kind@ == file_kind(),
            increasing(names_of(seen@)),
            built_sources(all, Set::empty()) == match built_sources(all.skip(i as int), names_of(seen@).to_set()) {
                Err(e) => Err(e),
                Ok(rest) => Ok(
                    Seq::new(
                        files@.len(),
                        |k: int|
                            BuiltSource {
                                path: files@[k].path@,
                                target: files@[k].target@,
                                content: files@[k].content->Some_0@,
                            },
                    ) + rest,
                ),
            },
            forall|k: int|
                0 <= k < files@.len() ==> (#[trigger] files@[k])@.kind == file_kind() && files@[k].content is Some,
        decreases sources@.len() - i,
    {
        let (dependency, filename, text) = (&sources[i].0, &sources[i].1, &sources[i].2);
        proof {
            assert(all.skip(i as int)[0] == (dependency@, filename@, text@));
            assert(all.skip(i as int).drop_first() =~= all.skip(i as int + 1));
        }
        let mut path: Vec<char> = Vec::new();
        crate::text::append_str(&mut path, "registry/");
        crate::text::append_str(&mut path, dependency.as_str());
        crate::text::append_str(&mut path, "/");
        crate::text::append_str(&mut path, filename.as_str());
        let path = string_from_chars(path.as_slice());
        proof {
            assert(path@ =~= source_path(dependency@, filename@));
        }
        let module = match module_name(path.as_str()) {
            Ok(m) => m,
            Err(e) => {
                return Err(e);
            },
        };
        let ghost before = names_of(seen@).to_set();
        if !crate::names::insert_name(&mut seen, module.clone()) {
            return Err(RegistryError::DuplicateModule(module));
        }
        let mut target: Vec<char> = Vec::new();
        crate::text::append_str(&mut target, "~/src/ui/");
        crate::text::append_str(&mut target, filename.as_str());
        let target = string_from_chars(target.as_slice());
        let ghost f0 = files@;
        files.push(SourceFile { path, kind: kind.clone(), target, content: Some(text.clone()) });
        proof {
            let acc0 = Seq::new(
                f0.len(),
                |k: int|
                    BuiltSource {
                        path: f0[k].path@,
                        target: f0[k].target@,
                        content: f0[k].content->Some_0@,
                    },
            );
            let acc1 = Seq::new(
                files@.len(),
                |k: int|
                    BuiltSource {
                        path: files@[k].path@,
                        target: files@[k].target@,
                        content: files@[k].content->Some_0@,
                    },
            );
            let b = BuiltSource { path: source_path(dependency@, filename@), target: source_target(filename@), content: text@ };
            assert(acc1 =~= acc0.push(b));
            assert forall|rest: Seq<BuiltSource>| acc0 + (seq![b] + rest) == acc1 + rest by {
                assert(acc0 + (seq![b] + rest) =~= acc1 + rest);
            }
            assert forall|k: int|
                0 <= k < files@.len() implies (#[trigger] files@[k])@.kind == file_kind() && files@[k].content is Some by {
                if k < f0.len() {
                    assert(files@[k] == f0[k]);
                }
            }
        }
        i = i + 1;
    }
    proof {
        assert(all.skip(i as int) =~= Seq::<(Seq<char>, Seq<char>, Seq<char>)>::empty());
    }
    let title = match metadata {
        Some(m) => match &m.title {
            Some(t) => t.clone(),
            None => component_title(name),
        },
        None => component_title(name),
    };
    let description = match metadata {
        Some(m) => match &m.description {
            Some(d) => Some(d.clone()),
            None => None,
        },
        None => None,
    };
    let description = match description {
        Some(d) => d,
        None => {
            let mut text: Vec<char> = Vec::new();
            crate::text::append_str(&mut text, "The shadcn default ");
            crate::text::append_str(&mut text, title.as_str());
            crate::text::append_str(&mut text, " visual port backed by Base GPUI behavior.");
            string_from_chars(text.as_slice())
        },
    };
    let item = RegistryItem {
        schema: Some(text_of_str("https://ui.shadcn.com/schema/registry-item.json")),
        name: published_name(name),
        kind: text_of_str("registry:item"),
        title,
        description,
        files,
    };
    proof {
        let built = built_sources(all, Set::empty())->Ok_0;
        assert(crate::install::sources_view(item.files@) =~= built.map_values(|b: BuiltSource| published_source(b)));
    }
    Ok(item)
}

/// The registry index of built items: the items without schema or inline content.
pub fn registry_index(name: &str, homepage: &str, items: Vec<RegistryItem>) -> (index: RegistryIndex)
    ensures
        index.name@ == name@,
        index.homepage@ == homepage@,
        index.schema@ == "https://ui.shadcn.com/schema/registry.json"@,
        index.items@.len() == items@.len(),
        forall|i: int|
            0 <= i < items@.len() ==> {
                let (a, b) = (#[trigger] index.items@[i], items@[i]);
                &&& a.schema is None
                &&& a.name@ == b.name@
                &&& a.kind@ == b.kind@
                &&& a.title@ == b.title@
                &&& a.description@ == b.description@
                &&& a.files@.len() == b.files@.len()
                &&& forall|k: int|
                    0 <= k < a.files@.len() ==> {
                        let (x, y) = (#[trigger] a.files@[k], b.files@[k]);
                        x.path@ == y.path@ && x.kind@ == y.kind@ && x.target@ == y.target@ && x.content is None
                    }
            },
{
    let ghost given = items@;
    let mut stripped: Vec<RegistryItem> = Vec::new();
    let mut rest = items;
    let ghost taken: Seq<RegistryItem> = Seq::empty();
    let mut i: usize = 0;
    let n = rest.len();
    while i < n
        invariant
            n == given.len(),
            i <= n,
            stripped@.len() == i,
            rest@.len() == n,
            forall|j: int| i <= j < n ==> rest@[j] == given[j],
            forall|j: int|
                0 <= j < i ==> {
                    let (a, b) = (#[trigger] stripped@[j], given[j]);
                    &&& a.schema is None
                    &&& a.name@ == b.name@
                    &&& a.kind@ == b.kind@
                    &&& a.title@ == b.title@
                    &&& a.description@ == b.description@
                    &&& a.files@.len() == b.files@.len()
                    &&& forall|k: int|
                        0 <= k < a.files@.len() ==> {
                            let (x, y) = (#[trigger] a.files@[k], b.files@[k]);
                            x.path@ == y.path@ && x.kind@ == y.kind@ && x.target@ == y.target@ && x.content is None
                        }
                },
        decreases n - i,
    {
        let item = &rest[i];
        let mut files: Vec<SourceFile> = Vec::new();
        let mut k: usize = 0;
        while k < item.files.len()
            invariant
                k <= item.files@.len(),
                files@.len() == k,
                forall|q: int|
                    0 <= q < k ==> {
                        let (x, y) = (#[trigger] files@[q], item.files@[q]);
                        x.path@ == y.path@ && x.kind@ == y.kind@ && x.target@ == y.target@ && x.content is None
                    },
            decreases item.files@.len() - k,
        {
            let f = &item.files[k];
            files.push(SourceFile { path: f.path.clone(), kind: f.kind.clone(), target: f.target.clone(), content: None });
            k = k + 1;
        }
        stripped.push(RegistryItem {
            schema: None,
            name: item.name.clone(),
            kind: item.kind.clone(),
            title: item.title.clone(),
            description: item.description.clone(),
            files,
        });
        i = i + 1;
    }
    RegistryIndex {
        schema: text_of_str("https://ui.shadcn.com/schema/registry.json"),
        name: text_of_str(name),
        homepage: text_of_str(homepage),
        items: stripped,
    }
}

} // verus!
