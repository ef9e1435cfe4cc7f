//! Localization: a table of per-language JSON texts, one of which is active.
//!
//! A [`Localizer`] is built once from the table, installs a language with
//! [`init_lang`], switches with [`reload_lang`] and is read with [`tr`].

use vstd::hash_map::StringHashMap;
use vstd::prelude::*;

verus! {

/// Key whose value, in each language's own table, is that language's name.
pub const SELF_NAME_KEY: &'static str = "this.lang";

/// `serde_json::Error`, carried as an opaque value.
#[verifier::external_type_specification]
#[verifier::external_body]
pub struct ExJsonError(serde_json::Error);

/// What `serde_json` makes of `raw` when asked for an object of strings:
/// the key-to-value map, or `None` where it reports an error.
pub uninterp spec fn json_string_map(raw: Seq<char>) -> Option<Map<Seq<char>, Seq<char>>>;

/// The translation of `key` in `map`: its value, or `key` itself when unmapped.
pub open spec fn spec_translate(map: Map<Seq<char>, Seq<char>>, key: Seq<char>) -> Seq<char> {
    if map.contains_key(key) {
        map[key]
    } else {
        key
    }
}

/// The JSON text stored for `code`: that of the first entry carrying the code.
pub open spec fn spec_lookup_raw(table: Seq<(String, String)>, code: Seq<char>) -> Option<
    Seq<char>,
>
    decreases table.len(),
{
    if table.len() == 0 {
        None
    } else if table[0].0@ == code {
        Some(table[0].1@)
    } else {
        spec_lookup_raw(table.drop_first(), code)
    }
}

/// The parsed map of the language `code`, if the table has it and it parses.
pub open spec fn spec_parse_embedded(table: Seq<(String, String)>, code: Seq<char>) -> Option<
    Map<Seq<char>, Seq<char>>,
> {
    match spec_lookup_raw(table, code) {
        Some(raw) => json_string_map(raw),
        None => None,
    }
}

/// The display name of the language `code`, given what its table parsed to.
pub open spec fn spec_display_name(
    parsed: Option<Map<Seq<char>, Seq<char>>>,
    code: Seq<char>,
) -> Seq<char> {
    match parsed {
        Some(map) => if map.contains_key(SELF_NAME_KEY@) {
            map[SELF_NAME_KEY@]
        } else {
            code
        },
        None => code,
    }
}

/// One language's translations: message key to translated text.
pub struct LangMap(StringHashMap<String>);

impl View for LangMap {
    type V = Map<Seq<char>, Seq<char>>;

    closed spec fn view(&self) -> Map<Seq<char>, Seq<char>> {
        self.0@.map_values(|v: String| v@)
    }
}

impl LangMap {
    /// A map without any translation.
    pub fn new() -> (map: LangMap)
        ensures
            map@ == Map::<Seq<char>, Seq<char>>::empty(),
    {
        let map = LangMap(StringHashMap::new());
        assert(map@ =~= Map::<Seq<char>, Seq<char>>::empty());
        map
    }

    /// Sets the translation of `key`, replacing an earlier one.
    pub fn insert(&mut self, key: String, value: String)
        ensures
            final(self)@ == old(self)@.insert(key@, value@),
    {
        self.0.insert(key, value);
        assert(self@ =~= old(self)@.insert(key@, value@));
    }

    /// Fetches the translation of `key`, or `key` itself when there is none.
    pub fn get(&self, key: &str) -> (text: String)
        ensures
            text@ == spec_translate(self@, key@),
    {
        match self.0.get(key) {
            Some(value) => value.clone(),
            None => key.to_owned(),
        }
    }

    /// Whether `key` has a translation.
    pub fn contains(&self, key: &str) -> (known: bool)
        ensures
            known == self@.contains_key(key@),
    {
        self.0.contains_key(key)
    }
}

/// Calls `serde_json::from_str` for a `HashMap<String, String>` and moves the
/// pairs into a [`LangMap`]. Trusted: the result is the named map of `raw`,
/// and an error exactly where that name is `None`.
#[verifier::external_body]
fn json_to_map(raw: &str) -> (parsed: Result<LangMap, serde_json::Error>)
    ensures
        match parsed {
            Ok(map) => json_string_map(raw@) == Some(map@),
            Err(_) => json_string_map(raw@) is None,
        },
{
    let pairs: std::collections::HashMap<String, String> = serde_json::from_str(raw)?;
    let mut map = StringHashMap::new();
    for (key, value) in pairs {
        map.insert(key, value);
    }
    Ok(LangMap(map))
}

/// Finds the JSON text of `code` in the table.
fn lookup_raw<'a>(table: &'a Vec<(String, String)>, code: &str) -> (raw: Option<&'a String>)
    ensures
        match raw {
            Some(text) => spec_lookup_raw(table@, code@) == Some(text@),
            None => spec_lookup_raw(table@, code@) is None,
        },
{
    let wanted = code.to_owned();
    let mut i: usize = 0;
    assert(table@.subrange(0, table.len() as int) =~= table@);
    while i < table.len()
        invariant
            i <= table.len(),
            wanted@ == code@,
            spec_lookup_raw(table@, code@) == spec_lookup_raw(
                table@.subrange(i as int, table.len() as int),
                code@,
            ),
        decreases table.len() - i,
    {
        let ghost rest = table@.subrange(i as int, table.len() as int);
        assert(rest[0] == table@[i as int]);
        assert(rest.drop_first() =~= table@.subrange(i + 1, table.len() as int));
        if table[i].0 == wanted {
            return Some(&table[i].1);
        }
        i += 1;
    }
    None
}

/// Parses the embedded table of the language `code`.
///
/// `None` when the table has no such language or its text is not a JSON
/// object of strings.
pub fn parse_embedded(table: &Vec<(String, String)>, code: &str) -> (parsed: Option<LangMap>)
    ensures
        match parsed {
            Some(map) => spec_parse_embedded(table@, code@) == Some(map@),
            None => spec_parse_embedded(table@, code@) is None,
        },
{
    match lookup_raw(table, code) {
        Some(raw) => match json_to_map(raw.as_str()) {
            Ok(map) => Some(map),
            Err(_) => None,
        },
        None => None,
    }
}

/// The name a language gives itself, read from what its table parsed to;
/// the bare code when it did not parse or does not name itself.
pub fn display_name(parsed: Option<LangMap>, code: &str) -> (name: String)
    ensures
        name@ == spec_display_name(
            match parsed {
                Some(map) => Some(map@),
                None => None,
            },
            code@,
        ),
{
    match parsed {
        Some(map) => if map.contains(SELF_NAME_KEY) {
            map.get(SELF_NAME_KEY)
        } else {
            code.to_owned()
        },
        None => code.to_owned(),
    }
}

/// The translation service: the embedded table and the active language.
pub struct Localizer {
    table: Vec<(String, String)>,
    active: Option<LangMap>,
}

impl Localizer {
    /// A service over `table`, pairs of language code and JSON text, with no
    /// language installed yet.
    pub fn new(table: Vec<(String, String)>) -> (service: Localizer)
        ensures
            service.table() == table@,
            service.active() is None,
    {
        Localizer { table, active: None }
    }

    /// The embedded table.
    pub closed spec fn table(&self) -> Seq<(String, String)> {
        self.table@
    }

    /// The active language's map, if one is installed.
    pub closed spec fn active(&self) -> Option<Map<Seq<char>, Seq<char>>> {
        match self.active {
            Some(map) => Some(map@),
            None => None,
        }
    }

    /// Whether a language is installed.
    pub fn is_initialized(&self) -> (installed: bool)
        ensures
            installed == self.active() is Some,
    {
        self.active.is_some()
    }
}

/// Installs the language `code` if none is installed yet; otherwise, or when
/// the table has no usable entry for `code`, changes nothing.
pub fn init_lang(service: &mut Localizer, code: &str)
    ensures
        final(service).table() == old(service).table(),
        final(service).active() == if old(service).active() is None {
            spec_parse_embedded(old(service).table(), code@)
        } else {
            old(service).active()
        },
{
    if service.active.is_none() {
        service.active = parse_embedded(&service.table, code);
    }
}

/// Switches to the language `code`. Nothing changes while no language is
/// installed, or when the table has no usable entry for `code`.
pub fn reload_lang(service: &mut Localizer, code: &str)
    ensures
        final(service).table() == old(service).table(),
        final(service).active() == if old(service).active() is Some && spec_parse_embedded(
            old(service).table(),
            code@,
        ) is Some {
            spec_parse_embedded(old(service).table(), code@)
        } else {
            old(service).active()
        },
{
    if service.active.is_some() {
        match parse_embedded(&service.table, code) {
            Some(map) => {
                service.active = Some(map);
            },
            None => {},
        }
    }
}

/// Translates `key` with the active language; the key itself comes back when
/// it is unmapped or no language is installed.
pub fn tr(service: &Localizer, key: &str) -> (text: String)
    ensures
        text@ == match service.active() {
            Some(map) => spec_translate(map, key@),
            None => key@,
        },
{
    match &service.active {
        Some(map) => map.get(key),
        None => key.to_owned(),
    }
}

/// The codes of all embedded languages, in table order.
pub fn available_langs(service: &Localizer) -> (codes: Vec<String>)
    ensures
        codes@.len() == service.table().len(),
        forall|i: int| 0 <= i < codes@.len() ==> (#[trigger] codes@[i])@ == service.table()[i].0@,
{
    let mut codes: Vec<String> = Vec::new();
    let mut i: usize = 0;
    while i < service.table.len()
        invariant
            i <= service.table.len(),
            codes@.len() == i,
            forall|j: int| 0 <= j < i ==> (#[trigger] codes@[j])@ == service.table@[j].0@,
        decreases service.table.len() - i,
    {
        codes.push(service.table[i].0.clone());
        i += 1;
    }
    codes
}

/// The name the language `code` gives itself, or `code` when the table has no
/// usable entry for it or the entry does not name itself.
pub fn lang_display(service: &Localizer, code: &str) -> (name: String)
    ensures
        name@ == spec_display_name(spec_parse_embedded(service.table(), code@), code@),
{
    display_name(parse_embedded(&service.table, code), code)
}

/// A key without translation is its own translation, whatever language is
/// active and whether or not a switch happened before.
pub proof fn lemma_unmapped_key_falls_back(map: Map<Seq<char>, Seq<char>>, key: Seq<char>)
    requires
        !map.contains_key(key),
    ensures
        spec_translate(map, key) == key,
{
}

} // verus!
