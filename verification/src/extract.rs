//! Extraction of the translation keys that a source file uses.
//!
//! Two searches run over the raw text of a file. The first looks for the call
//! that declares the file's translation namespace, the second for the calls
//! of the translation function. A file may declare at most one namespace; its
//! keys are then qualified with it.

use vstd::prelude::*;
use vstd::relations::injective_on;
use vstd::set_lib::lemma_map_size;
use crate::keys::{views, KeySet};
use crate::pattern::{capture_group, capture_views, regex_captures, Capture, Step};

verus! {

/// Matches a namespace declaration: a call of `useTranslation` or
/// `getTranslations` with one quoted string. Group 3 is the namespace.
pub const NAMESPACE_PATTERN: &'static str = r#"(useTranslation|getTranslations)\(("|')(.+?)\2\)"#;

/// The capture group of [`NAMESPACE_PATTERN`] that holds the namespace.
pub const NAMESPACE_GROUP: u16 = 3;

/// Matches a call site: `t`, not straight after a character of an identifier
/// (a letter or a digit of any script, or an underscore) nor after the dot of
/// a member access, called with one quoted string, with optional white space
/// inside the parentheses. Group 2 is the key, which runs to the first quote
/// of the opening style that closes the call.
pub const CALL_SITE_PATTERN: &'static str = r#"(?<![\w.])t\(\s*(['"])(.*?)\1\s*\)"#;

/// The capture group of [`CALL_SITE_PATTERN`] that holds the key.
pub const CALL_SITE_GROUP: u16 = 2;

/// Why no keys could be extracted from a file.
#[derive(Debug)]
pub enum ExtractError {
    /// The file declares more than one namespace.
    AmbiguousNamespace { file: String },
    /// The regex engine rejected one of the patterns.
    Pattern(fancy_regex::Error),
}

/// The text that a step of a search gave, if it gave one: neither a match
/// whose capture group took no text nor a failed search counts.
pub open spec fn step_text(step: Step) -> Option<Seq<char>> {
    match step {
        Ok(Some(text)) => Some(text),
        _ => None,
    }
}

/// The function that takes the text from a step of a search.
pub open spec fn text_of_step() -> spec_fn(Step) -> Option<Seq<char>> {
    |step: Step| step_text(step)
}

/// The texts that the steps of a search gave, in order.
pub open spec fn captured(steps: Seq<Step>) -> Seq<Seq<char>> {
    steps.filter_map(text_of_step())
}

/// A raw key as the dictionary knows it: behind the namespace and a dot where
/// the file declares a namespace, else as it stands.
pub open spec fn qualified(namespace: Option<Seq<char>>, raw: Seq<char>) -> Seq<char> {
    match namespace {
        Some(prefix) => prefix + seq!['.'] + raw,
        None => raw,
    }
}

/// The function that qualifies a raw key with `namespace`.
pub open spec fn qualifier(namespace: Option<Seq<char>>) -> spec_fn(Seq<char>) -> Seq<char> {
    |raw: Seq<char>| qualified(namespace, raw)
}

/// A file with these namespace declarations cannot be given a namespace.
pub open spec fn ambiguous(declared: Seq<Seq<char>>) -> bool {
    declared.len() > 1
}

/// The namespace of a file with these namespace declarations.
pub open spec fn namespace_of(declared: Seq<Seq<char>>) -> Option<Seq<char>> {
    if declared.len() == 0 {
        None
    } else {
        Some(declared[0])
    }
}

/// The set of keys of a file with this namespace and these raw keys.
pub open spec fn qualified_keys(namespace: Option<Seq<char>>, raw_keys: Seq<Seq<char>>) -> Set<
    Seq<char>,
> {
    raw_keys.to_set().map(qualifier(namespace))
}

/// The keys of a file, given the namespaces and the raw keys that the two
/// searches found in it; `None` where the namespace is ambiguous.
pub open spec fn file_keys(
    namespaces: Seq<Step>,
    call_sites: Seq<Step>,
) -> Option<Set<Seq<char>>> {
    if ambiguous(captured(namespaces)) {
        None
    } else {
        Some(qualified_keys(namespace_of(captured(namespaces)), captured(call_sites)))
    }
}

/// The namespace declarations that the engine finds in `content`.
pub open spec fn namespace_matches(content: Seq<char>) -> Option<Seq<Step>> {
    regex_captures(NAMESPACE_PATTERN@, content, NAMESPACE_GROUP)
}

/// The call sites that the engine finds in `content`.
pub open spec fn call_site_matches(content: Seq<char>) -> Option<Seq<Step>> {
    regex_captures(CALL_SITE_PATTERN@, content, CALL_SITE_GROUP)
}

/// Searches `text` for `pattern` and takes capture group `group` from each
/// match.
///
/// Fails where the engine rejects the pattern.
pub fn search(pattern: &str, text: &str, group: u16) -> (r: Result<Vec<Capture>, ExtractError>)
    ensures
        match regex_captures(pattern@, text@, group) {
            Some(items) => r matches Ok(found) && capture_views(found@) == items,
            None => r matches Err(ExtractError::Pattern(_)),
        },
{
    match capture_group(pattern, text, group) {
        Ok(items) => Ok(items),
        Err(error) => Err(ExtractError::Pattern(error)),
    }
}

/// The texts that a search handed out, in order.
pub fn captured_texts(items: &Vec<Capture>) -> (r: Vec<String>)
    ensures
        views(r@) == captured(capture_views(items@)),
{
    let mut r: Vec<String> = Vec::new();
    let mut i: usize = 0;
    assert(capture_views(items@).take(0) =~= Seq::<Step>::empty());
    assert(views(r@) =~= captured(capture_views(items@).take(0)));
    while i < items.len()
        invariant
            0 <= i <= items.len(),
            views(r@) == captured(capture_views(items@).take(i as int)),
        decreases items.len() - i,
    {
        proof {
            capture_views(items@).lemma_filter_map_take_succ(text_of_step(), i as int);
        }
        match &items[i] {
            Capture::Text(text) => {
                let copy = text.clone();
                assert(views(r@.push(copy)) =~= views(r@).push(copy@));
                r.push(copy);
            },
            Capture::Unset => {},
            Capture::Failed => {},
        }
        i += 1;
    }
    assert(capture_views(items@).take(i as int) =~= capture_views(items@));
    r
}

/// The character sequence of an optional namespace.
pub open spec fn namespace_view(namespace: Option<String>) -> Option<Seq<char>> {
    match namespace {
        Some(prefix) => Some(prefix@),
        None => None,
    }
}

/// Qualifies `raw` with `namespace`.
pub fn qualify(namespace: &Option<String>, raw: &str) -> (r: String)
    ensures
        r@ == qualified(namespace_view(*namespace), raw@),
{
    match namespace {
        Some(prefix) => {
            let mut key = prefix.clone();
            proof {
                reveal_strlit(".");
                assert("."@ =~= seq!['.']);
            }
            key.append(".");
            key.append(raw);
            key
        },
        None => String::from_str(raw),
    }
}

/// The namespace of the file named `file`, given the namespace declarations
/// that the search found in it.
///
/// Fails where the file declares more than one namespace.
pub fn file_namespace(file: &str, namespaces: &Vec<Capture>) -> (r: Result<
    Option<String>,
    ExtractError,
>)
    ensures
        if ambiguous(captured(capture_views(namespaces@))) {
            r matches Err(ExtractError::AmbiguousNamespace { file: named }) && named@ == file@
        } else {
            r matches Ok(namespace) && namespace_view(namespace) == namespace_of(
                captured(capture_views(namespaces@)),
            )
        },
{
    let mut declared = captured_texts(namespaces);
    if declared.len() > 1 {
        Err(ExtractError::AmbiguousNamespace { file: String::from_str(file) })
    } else {
        Ok(declared.pop())
    }
}

/// The set of keys of a file with this namespace, given the call sites that
/// the search found in it.
pub fn qualified_key_set(namespace: &Option<String>, call_sites: &Vec<Capture>) -> (keys:
    KeySet)
    ensures
        keys@ == qualified_keys(namespace_view(*namespace), captured(capture_views(call_sites@))),
        keys.wf(),
{
    let raw_keys = captured_texts(call_sites);
    let mut keys = KeySet::new();
    let mut i: usize = 0;
    proof {
        assert(views(raw_keys@).take(0).to_set() =~= Set::<Seq<char>>::empty());
        assert(qualified_keys(namespace_view(*namespace), views(raw_keys@).take(0))
            =~= Set::<Seq<char>>::empty());
    }
    while i < raw_keys.len()
        invariant
            0 <= i <= raw_keys.len(),
            keys@ == qualified_keys(namespace_view(*namespace), views(raw_keys@).take(i as int)),
            keys.wf(),
        decreases raw_keys.len() - i,
    {
        let key = qualify(namespace, raw_keys[i].as_str());
        proof {
            let seen = views(raw_keys@).take(i as int);
            let raw = views(raw_keys@)[i as int];
            let f = qualifier(namespace_view(*namespace));
            assert(key@ == f(raw));
            assert(views(raw_keys@).take(i + 1) =~= seen.push(raw));
            seen.lemma_push_to_set_commute(raw);
            seen.to_set().lemma_set_map_insert_commute(raw, f);
        }
        keys.insert(key);
        i += 1;
    }
    assert(views(raw_keys@).take(i as int) =~= views(raw_keys@));
    keys
}

/// The keys of the file named `file`, given what the two searches found in
/// it: the namespaces that it declares and the raw keys of its call sites.
///
/// Fails where the file declares more than one namespace.
pub fn keys_of_file(
    file: &str,
    namespaces: &Vec<Capture>,
    call_sites: &Vec<Capture>,
) -> (r: Result<KeySet, ExtractError>)
    ensures
        match file_keys(capture_views(namespaces@), capture_views(call_sites@)) {
            Some(keys) => r matches Ok(found) && found@ == keys && found.wf(),
            None => r matches Err(ExtractError::AmbiguousNamespace { file: named }) && named@
                == file@,
        },
{
    match file_namespace(file, namespaces) {
        Ok(namespace) => Ok(qualified_key_set(&namespace, call_sites)),
        Err(error) => Err(error),
    }
}

/// The keys that the source text `content` of the file named `file` uses.
///
/// Fails where the file declares more than one namespace, and where the
/// engine rejects a pattern.
pub fn extract_keys(file: &str, content: &str) -> (r: Result<KeySet, ExtractError>)
    ensures
        match namespace_matches(content@) {
            None => r matches Err(ExtractError::Pattern(_)),
            Some(namespaces) => if ambiguous(captured(namespaces)) {
                r matches Err(ExtractError::AmbiguousNamespace { file: named }) && named@ == file@
            } else {
                match call_site_matches(content@) {
                    None => r matches Err(ExtractError::Pattern(_)),
                    Some(call_sites) => r matches Ok(found) && found.wf() && Some(found@)
                        == file_keys(namespaces, call_sites),
                }
            },
        },
{
    let namespaces = match search(NAMESPACE_PATTERN, content, NAMESPACE_GROUP) {
        Ok(items) => items,
        Err(error) => {
            return Err(error);
        },
    };
    let namespace = match file_namespace(file, &namespaces) {
        Ok(namespace) => namespace,
        Err(error) => {
            return Err(error);
        },
    };
    let call_sites = match search(CALL_SITE_PATTERN, content, CALL_SITE_GROUP) {
        Ok(items) => items,
        Err(error) => {
            return Err(error);
        },
    };
    Ok(qualified_key_set(&namespace, &call_sites))
}

/// A file without call sites has no keys, provided that its namespace is not
/// ambiguous.
pub proof fn lemma_no_call_sites(
    namespaces: Seq<Step>,
    call_sites: Seq<Step>,
)
    requires
        !ambiguous(captured(namespaces)),
        captured(call_sites).len() == 0,
    ensures
        file_keys(namespaces, call_sites) == Some(Set::<Seq<char>>::empty()),
{
    let namespace = namespace_of(captured(namespaces));
    assert(captured(call_sites).to_set() =~= Set::<Seq<char>>::empty());
    assert(qualified_keys(namespace, captured(call_sites)) =~= Set::<Seq<char>>::empty());
}

/// Qualifying with one namespace keeps different raw keys different.
pub proof fn lemma_qualified_injective(namespace: Option<Seq<char>>, a: Seq<char>, b: Seq<char>)
    requires
        qualified(namespace, a) == qualified(namespace, b),
    ensures
        a == b,
{
    match namespace {
        Some(prefix) => {
            let head = prefix + seq!['.'];
            assert(qualified(namespace, a).len() == head.len() + a.len());
            assert(qualified(namespace, b).len() == head.len() + b.len());
            assert forall|i: int| 0 <= i < a.len() implies a[i] == b[i] by {
                assert(qualified(namespace, a)[head.len() + i] == a[i]);
                assert(qualified(namespace, b)[head.len() + i] == b[i]);
            }
            assert(a =~= b);
        },
        None => {},
    }
}

/// A file with exactly one namespace declaration has as many keys as its
/// call sites have distinct raw keys, and its keys are the raw keys, each
/// behind the namespace and a dot.
pub proof fn lemma_one_namespace(
    namespaces: Seq<Step>,
    call_sites: Seq<Step>,
)
    requires
        captured(namespaces).len() == 1,
    ensures
        file_keys(namespaces, call_sites) matches Some(keys) && {
            &&& keys.finite()
            &&& keys.len() == captured(call_sites).to_set().len()
            &&& forall|key: Seq<char>|
                keys.contains(key) <==> exists|raw: Seq<char>|
                    #[trigger] captured(call_sites).contains(raw) && key == captured(
                        namespaces,
                    )[0] + seq!['.'] + raw
        },
{
    let namespace = namespace_of(captured(namespaces));
    let raw_keys = captured(call_sites);
    let keys = qualified_keys(namespace, raw_keys);
    let f = qualifier(namespace);
    vstd::seq_lib::seq_to_set_is_finite(raw_keys);
    assert forall|a: Seq<char>, b: Seq<char>|
        raw_keys.to_set().contains(a) && raw_keys.to_set().contains(b) && #[trigger] f(a)
            == #[trigger] f(b) implies a == b by {
        lemma_qualified_injective(namespace, a, b);
    }
    assert(injective_on(f, raw_keys.to_set()));
    lemma_map_size(raw_keys.to_set(), keys, f);
    assert forall|key: Seq<char>|
        keys.contains(key) <==> exists|raw: Seq<char>|
            #[trigger] raw_keys.contains(raw) && key == captured(namespaces)[0] + seq!['.']
                + raw by {
        if keys.contains(key) {
            let raw = choose|raw: Seq<char>| raw_keys.to_set().contains(raw) && key == f(raw);
            assert(raw_keys.contains(raw));
        }
        if exists|raw: Seq<char>|
            #[trigger] raw_keys.contains(raw) && key == captured(namespaces)[0] + seq!['.']
                + raw {
            let raw = choose|raw: Seq<char>|
                #[trigger] raw_keys.contains(raw) && key == captured(namespaces)[0] + seq!['.']
                    + raw;
            assert(raw_keys.to_set().contains(raw));
            assert(key == f(raw));
        }
    }
}

/// A file with two or more namespace declarations has no keys: its namespace
/// is ambiguous.
pub proof fn lemma_many_namespaces(
    namespaces: Seq<Step>,
    call_sites: Seq<Step>,
)
    requires
        captured(namespaces).len() >= 2,
    ensures
        file_keys(namespaces, call_sites) is None,
{
}

} // verus!
