//! Where a registry is read from, and the checks on what is requested and read.
use crate::registry::{RegistryError, is_valid_name, valid_name};
use crate::segmentation::string_from_chars;
use crate::text::chars_of;
use vstd::prelude::*;

verus! {

/// The largest registry item read, in bytes (4 MiB).
pub const MAX_ITEM_BYTES: u64 = 4194304;

/// The configuration version this installer reads.
pub const CONFIG_VERSION: u32 = 1;

/// `text` begins with `prefix`.
pub open spec fn has_prefix(text: Seq<char>, prefix: Seq<char>) -> bool {
    prefix.len() <= text.len() && text.take(prefix.len() as int) == prefix
}

/// `text` contains `needle` as a contiguous part.
pub open spec fn has_part(text: Seq<char>, needle: Seq<char>) -> bool {
    exists|k: int| 0 <= k && k + needle.len() <= text.len() && #[trigger] text.subrange(k, k + needle.len()) == needle
}

/// `text` without its trailing `/` characters.
pub open spec fn trimmed(text: Seq<char>) -> Seq<char>
    decreases text.len(),
{
    if text.len() > 0 && text.last() == '/' {
        trimmed(text.drop_last())
    } else {
        text
    }
}

/// Whether a registry location is remote: it starts with `https://` or `http://`.
pub open spec fn is_remote(location: Seq<char>) -> bool {
    has_prefix(location, "https://"@) || has_prefix(location, "http://"@)
}

/// Where a registry is read from.
pub struct RegistryLocation {
    /// The location without trailing `/`.
    pub location: String,
    /// Whether it is read over HTTP(S) rather than from a local directory.
    pub remote: bool,
}

fn starts_with_str(text: &Vec<char>, prefix: &str) -> (r: bool)
    ensures
        r == has_prefix(text@, prefix@),
{
    let p = chars_of(prefix);
    if p.len() > text.len() {
        return false;
    }
    let mut i: usize = 0;
    while i < p.len()
        invariant
            p@ == prefix@,
            p@.len() <= text@.len(),
            i <= p@.len(),
            forall|j: int| 0 <= j < i ==> text@[j] == p@[j],
        decreases p@.len() - i,
    {
        if text[i] != p[i] {
            proof {
                assert(text@.take(p@.len() as int)[i as int] == text@[i as int]);
            }
            return false;
        }
        i = i + 1;
    }
    proof {
        assert(text@.take(p@.len() as int) =~= p@);
    }
    true
}

fn contains_scheme_separator(text: &Vec<char>) -> (r: bool)
    ensures
        r == has_part(text@, "://"@),
{
    proof {
        reveal_strlit("://");
        assert("://"@ =~= seq![':', '/', '/']);
    }
    let n = text.len();
    if n < 3 {
        proof {
            assert forall|k: int| 0 <= k && k + 3 <= n implies #[trigger] text@.subrange(k, k + 3) != "://"@ by {}
        }
        return false;
    }
    let mut k: usize = 0;
    while k < n - 2
        invariant
            "://"@ == seq![':', '/', '/'],
            n == text@.len(),
            n >= 3,
            k <= n - 2,
            forall|q: int| 0 <= q < k ==> #[trigger] text@.subrange(q, q + 3) != "://"@,
        decreases n - k,
    {
        if text[k] == ':' && text[k + 1] == '/' && text[k + 2] == '/' {
            proof {
                assert(text@.subrange(k as int, k + 3) =~= "://"@);
            }
            return true;
        }
        proof {
            let s = text@.subrange(k as int, k + 3);
            if s == "://"@ {
                assert(s[0] == text@[k as int] && s[1] == text@[k + 1] && s[2] == text@[k + 2]);
            }
        }
        k = k + 1;
    }
    false
}

/// Reads a registry location: HTTP(S) URLs are remote, anything else without
/// a `://` is a local directory, and other schemes are refused. Trailing `/`
/// are dropped.
pub fn registry_location(location: &str) -> (r: Result<RegistryLocation, RegistryError>)
    ensures
        match r {
            Ok(l) => (is_remote(location@) || !has_part(location@, "://"@)) && l.remote == is_remote(
                location@,
            ) && l.location@ == trimmed(location@),
            Err(e) => !is_remote(location@) && has_part(location@, "://"@) && (e matches RegistryError::InvalidLocation(
                s,
            ) && s@ == location@),
        },
{
    let chars = chars_of(location);
    let remote = starts_with_str(&chars, "https://") || starts_with_str(&chars, "http://");
    if !remote && contains_scheme_separator(&chars) {
        return Err(RegistryError::InvalidLocation(location.to_owned()));
    }
    let mut end = chars.len();
    proof {
        assert(chars@.take(end as int) =~= chars@);
    }
    while end > 0 && chars[end - 1] == '/'
        invariant
            end <= chars@.len(),
            chars@ == location@,
            trimmed(location@) == trimmed(chars@.take(end as int)),
        decreases end,
    {
        proof {
            assert(chars@.take(end as int).drop_last() =~= chars@.take(end as int - 1));
        }
        end = end - 1;
    }
    let mut kept: Vec<char> = Vec::new();
    let mut i: usize = 0;
    while i < end
        invariant
            end <= chars@.len(),
            i <= end,
            kept@ == chars@.take(i as int),
        decreases end - i,
    {
        kept.push(chars[i]);
        proof {
            assert(chars@.take(i as int + 1) =~= chars@.take(i as int).push(chars@[i as int]));
        }
        i = i + 1;
    }
    proof {
        let t = chars@.take(end as int);
        assert(kept@ =~= t);
        if end > 0 {
            assert(t.last() == chars@[end - 1]);
        }
    }
    Ok(RegistryLocation { location: string_from_chars(kept.as_slice()), remote })
}

/// The file an item is read from: `{name}.json`, for valid component names only.
pub fn item_file(name: &str) -> (r: Result<String, RegistryError>)
    ensures
        is_valid_name(name@) ==> (r matches Ok(f) && f@ == name@ + ".json"@),
        !is_valid_name(name@) ==> (r matches Err(RegistryError::InvalidName(n)) && n@ == name@),
{
    if !valid_name(name) {
        return Err(RegistryError::InvalidName(name.to_owned()));
    }
    let mut text = chars_of(name);
    crate::text::append_str(&mut text, ".json");
    Ok(string_from_chars(text.as_slice()))
}

/// Refuses an item of more than `MAX_ITEM_BYTES` bytes.
pub fn check_item_size(len: usize) -> (r: Result<(), RegistryError>)
    ensures
        r is Ok <==> len <= MAX_ITEM_BYTES,
        r is Err ==> r matches Err(RegistryError::TooLarge),
{
    if len as u128 > MAX_ITEM_BYTES as u128 {
        Err(RegistryError::TooLarge)
    } else {
        Ok(())
    }
}

/// Refuses a configuration of another version.
pub fn check_config_version(version: u32) -> (r: Result<(), RegistryError>)
    ensures
        r is Ok <==> version == CONFIG_VERSION,
        r is Err ==> (r matches Err(RegistryError::UnsupportedVersion(v)) && v == version),
{
    if version == CONFIG_VERSION {
        Ok(())
    } else {
        Err(RegistryError::UnsupportedVersion(version))
    }
}

/// Checks the arguments of `add`: component names and `--all` exclude each other.
pub fn check_add_arguments(components: &Vec<String>, all: bool) -> (r: Result<(), RegistryError>)
    ensures
        r is Ok <==> (!all || components@.len() == 0),
        r is Err ==> r matches Err(RegistryError::NamesWithAll),
{
    if all && components.len() > 0 {
        Err(RegistryError::NamesWithAll)
    } else {
        Ok(())
    }
}

/// Checks that something is requested once `--all` is expanded.
pub fn check_requested(components: &Vec<String>) -> (r: Result<(), RegistryError>)
    ensures
        r is Ok <==> components@.len() > 0,
        r is Err ==> r matches Err(RegistryError::NothingRequested),
{
    if components.len() == 0 {
        Err(RegistryError::NothingRequested)
    } else {
        Ok(())
    }
}

} // verus!
