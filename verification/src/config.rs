//! The settings that persist between sessions: which model, whether speakers are told
//! apart, and the interface language, kept as a one-line JSON text.
use vstd::prelude::*;
use crate::paths::{StoragePath, StorageRoot, app_data_path, platform_data_dir};
use std::path::Path;
use crate::text::{
    chars_of, contains, find_line_containing, matches_at, first_containing, lemma_first_line_prefix,
    lemma_mismatch, lemma_piece_end_is, lines, nth_piece, nth_piece_in, pieces_from, split_on,
};

verus! {

broadcast use vstd::string::group_string_axioms;

/// The persisted settings.
pub struct SavedConfig {
    pub model: String,
    pub diarize: bool,
    pub ui_language: Option<String>,
}

/// The settings as plain values.
pub struct SavedConfigView {
    pub model: Seq<char>,
    pub diarize: bool,
    pub ui_language: Option<Seq<char>>,
}

impl View for SavedConfig {
    type V = SavedConfigView;

    open spec fn view(&self) -> SavedConfigView {
        SavedConfigView {
            model: self.model@,
            diarize: self.diarize,
            ui_language: match self.ui_language {
                Some(l) => Some(l@),
                None => None,
            },
        }
    }
}

/// The model read from a settings text: the fourth `"`-separated field of the first line
/// that mentions `"model"`, or `lite` when there is no such line or field.
pub open spec fn saved_model(s: Seq<char>) -> Seq<char> {
    match first_containing(lines(s), "\"model\""@) {
        Some(l) => match nth_piece(l, '"', 3) {
            Some(v) => v,
            None => "lite"@,
        },
        None => "lite"@,
    }
}

/// Speaker identification is on when the text holds `"diarize":true`, with or without a space.
pub open spec fn saved_diarize(s: Seq<char>) -> bool {
    contains(s, "\"diarize\":true"@) || contains(s, "\"diarize\": true"@)
}

/// The quoted name of the key that holds the interface language.
pub open spec fn language_key() -> Seq<char> {
    "\"ui_language\""@
}

/// JSON's white space: space, tab, line feed and carriage return.
pub open spec fn is_json_space(c: char) -> bool {
    c == ' ' || c == '\t' || c == '\n' || c == '\r'
}

/// The first index at or after `j` that does not hold white space.
pub open spec fn skip_space(s: Seq<char>, j: int) -> int
    decreases s.len() - j,
{
    if 0 <= j < s.len() && is_json_space(s[j]) {
        skip_space(s, j + 1)
    } else {
        j
    }
}

/// `"ui_language"` stands at `i` as a key: white space, then a colon, follows it.
pub open spec fn language_key_at(s: Seq<char>, i: int) -> bool {
    let k = language_key();
    &&& 0 <= i
    &&& i + k.len() <= s.len()
    &&& s.subrange(i, i + k.len()) == k
    &&& 0 <= skip_space(s, i + k.len()) < s.len()
    &&& s[skip_space(s, i + k.len())] == ':'
}

/// The first index at or after `i` at which the key `"ui_language"` stands.
pub open spec fn language_key_from(s: Seq<char>, i: int) -> Option<int>
    decreases s.len() + 1 - i,
{
    if i < 0 || i + language_key().len() > s.len() {
        None
    } else if language_key_at(s, i) {
        Some(i)
    } else {
        language_key_from(s, i + 1)
    }
}

/// The interface language read from a settings text: the quoted value that follows the
/// colon of the first `"ui_language"` key, if the text has the key and a quoted value after it.
pub open spec fn saved_ui_language(s: Seq<char>) -> Option<Seq<char>> {
    match language_key_from(s, 0) {
        Some(i) => nth_piece(
            s.subrange(skip_space(s, i + language_key().len()) + 1, s.len() as int),
            '"',
            1,
        ),
        None => None,
    }
}

/// The settings that a settings text gives.
pub open spec fn parsed_config(s: Seq<char>) -> SavedConfigView {
    SavedConfigView { model: saved_model(s), diarize: saved_diarize(s), ui_language: saved_ui_language(s) }
}

/// The settings used when there is no settings text to read.
pub open spec fn fallback_config() -> SavedConfigView {
    SavedConfigView { model: "lite"@, diarize: false, ui_language: None }
}

/// The settings text written for a model, a diarization flag and an interface language.
pub open spec fn config_text(model: Seq<char>, diarize: bool, ui_language: Option<Seq<char>>) -> Seq<char> {
    "{\"model\":\""@ + model + "\",\"diarize\":"@ + (if diarize { "true"@ } else { "false"@ })
        + match ui_language {
        Some(l) => ",\"ui_language\":\""@ + l + "\""@,
        None => Seq::empty(),
    } + "}"@
}

/// The fourth `"`-separated field of the first line of `cs` that mentions `key`.
fn field_of_first_line(data: &str, cs: &Vec<char>, key: &str) -> (r: Option<String>)
    requires
        cs@ == data@,
    ensures
        match first_containing(lines(data@), key@) {
            Some(l) => match nth_piece(l, '"', 3) {
                Some(v) => r is Some && r->0@ == v,
                None => r is None,
            },
            None => r is None,
        },
{
    let pat = chars_of(key);
    match find_line_containing(cs, &pat) {
        None => None,
        Some((a, b)) => match nth_piece_in(cs, a, b, '"', 3) {
            None => None,
            Some((x, y)) => Some(String::from_str(data.substring_char(x, y))),
        },
    }
}

/// The index of the first character at or after `j` in `cs` that is not white space.
fn skip_space_in(cs: &Vec<char>, j: usize) -> (r: usize)
    requires
        j <= cs.len(),
    ensures
        r == skip_space(cs@, j as int),
        j <= r <= cs.len(),
{
    let mut r = j;
    while r < cs.len() && (cs[r] == ' ' || cs[r] == '\t' || cs[r] == '\n' || cs[r] == '\r')
        invariant
            j <= r <= cs.len(),
            skip_space(cs@, j as int) == skip_space(cs@, r as int),
        decreases cs.len() - r,
    {
        r += 1;
    }
    r
}

/// The index of the first `"ui_language"` key in `cs`, if there is one.
fn find_language_key(cs: &Vec<char>) -> (r: Option<usize>)
    ensures
        match r {
            Some(i) => language_key_from(cs@, 0) == Some(i as int),
            None => language_key_from(cs@, 0) is None,
        },
{
    let key = chars_of("\"ui_language\"");
    if key.len() > cs.len() {
        return None;
    }
    let mut i: usize = 0;
    loop
        invariant
            key@ == language_key(),
            key.len() <= cs.len(),
            i + key.len() <= cs.len(),
            language_key_from(cs@, i as int) == language_key_from(cs@, 0),
        decreases cs.len() - i,
    {
        if matches_at(cs, i, &key) {
            let j = skip_space_in(cs, i + key.len());
            if j < cs.len() && cs[j] == ':' {
                return Some(i);
            }
        }
        if i + key.len() == cs.len() {
            assert(language_key_from(cs@, i + 1) is None);
            return None;
        }
        i += 1;
    }
}

/// The quoted value after the colon of the first `"ui_language"` key in `cs`.
fn language_value(data: &str, cs: &Vec<char>) -> (r: Option<String>)
    requires
        cs@ == data@,
    ensures
        match saved_ui_language(data@) {
            Some(v) => r is Some && r->0@ == v,
            None => r is None,
        },
{
    match find_language_key(cs) {
        None => None,
        Some(i) => {
            proof {
                reveal_strlit("\"ui_language\"");
                lemma_language_key_bounds(cs@, 0);
                assert(language_key().len() == 13);
                assert(language_key_at(cs@, i as int));
                assert(i + 13 <= cs.len());
            }
            let j = skip_space_in(cs, i + 13);
            match nth_piece_in(cs, j + 1, cs.len(), '"', 1) {
                None => None,
                Some((x, y)) => Some(String::from_str(data.substring_char(x, y))),
            }
        },
    }
}

/// Where the settings file is kept: `config.json` in the chosen data directory, or in the
/// library's folder in the platform's data directory (or in `.`).
pub fn config_path<'a>(data_dir: Option<&'a Path>) -> (p: StoragePath<'a>)
    ensures
        match data_dir {
            Some(d) => p@.root == StorageRoot::<'a>::Given(d) && p@.names == seq!["config.json"@],
            None => (p@.root is DataDir || p@.root is Dot) && p@.names == seq!["scriba"@, "config.json"@],
        },
{
    match data_dir {
        Some(d) => StoragePath::new(StorageRoot::Given(d), "config.json"),
        None => app_data_path(platform_data_dir(), "config.json"),
    }
}

/// Reads the settings out of the text of a settings file.
pub fn parse_config(data: &str) -> (c: SavedConfig)
    ensures
        c@ == parsed_config(data@),
{
    let cs = chars_of(data);
    let model = match field_of_first_line(data, &cs, "\"model\"") {
        Some(m) => m,
        None => String::from_str("lite"),
    };
    let plain = chars_of("\"diarize\":true");
    let spaced = chars_of("\"diarize\": true");
    let diarize = crate::text::contains_in(&cs, 0, cs.len(), &plain) || crate::text::contains_in(
        &cs,
        0,
        cs.len(),
        &spaced,
    );
    let ui_language = language_value(data, &cs);
    proof {
        assert(cs@.subrange(0, cs.len() as int) =~= cs@);
    }
    SavedConfig { model, diarize, ui_language }
}

/// The settings for the text of a settings file, or the defaults when there was none to read.
pub fn load_config_from(data: Option<&str>) -> (c: SavedConfig)
    ensures
        c@ == match data {
            Some(d) => parsed_config(d@),
            None => fallback_config(),
        },
{
    match data {
        Some(d) => parse_config(d),
        None => SavedConfig { model: String::from_str("lite"), diarize: false, ui_language: None },
    }
}

/// The settings text to write: `{"model":"…","diarize":…,"ui_language":"…"}`, the last
/// field only when an interface language is set.
pub fn config_json(model: &str, diarize: bool, ui_language: Option<&str>) -> (s: String)
    ensures
        s@ == config_text(model@, diarize, match ui_language {
            Some(l) => Some(l@),
            None => None,
        }),
{
    let mut s = String::from_str("{\"model\":\"");
    s.append(model);
    s.append("\",\"diarize\":");
    if diarize {
        s.append("true");
    } else {
        s.append("false");
    }
    match ui_language {
        Some(l) => {
            s.append(",\"ui_language\":\"");
            s.append(l);
            s.append("\"");
        },
        None => {},
    }
    s.append("}");
    proof {
        assert(s@ =~= config_text(model@, diarize, match ui_language {
            Some(l) => Some(l@),
            None => None,
        }));
    }
    s
}

/// Where the interface-language part of a settings text starts.
spec fn language_start(m: Seq<char>, d: bool) -> int {
    22 + m.len() + if d { 4int } else { 5int }
}

/// What is known of each character of a settings text, position by position.
proof fn lemma_text_layout(m: Seq<char>, d: bool, l: Option<Seq<char>>)
    ensures
        ({
            let t = config_text(m, d, l);
            let mm = m.len() as int;
            let base = language_start(m, d);
            &&& t[0] == '{' && t[1] == '"' && t[2] == 'm' && t[3] == 'o' && t[4] == 'd'
            &&& t[5] == 'e' && t[6] == 'l' && t[7] == '"' && t[8] == ':' && t[9] == '"'
            &&& forall|j: int| 0 <= j < mm ==> #[trigger] t[10 + j] == m[j]
            &&& t[10 + mm] == '"' && t[11 + mm] == ',' && t[12 + mm] == '"'
            &&& t[13 + mm] == 'd' && t[14 + mm] == 'i' && t[15 + mm] == 'a' && t[16 + mm] == 'r'
            &&& t[17 + mm] == 'i' && t[18 + mm] == 'z' && t[19 + mm] == 'e' && t[20 + mm] == '"'
            &&& t[21 + mm] == ':'
            &&& (d ==> t[22 + mm] == 't' && t[23 + mm] == 'r' && t[24 + mm] == 'u' && t[25 + mm] == 'e')
            &&& (!d ==> t[22 + mm] == 'f' && t[23 + mm] == 'a' && t[24 + mm] == 'l' && t[25 + mm] == 's'
                && t[26 + mm] == 'e')
            &&& (l is None ==> t.len() == base + 1 && t[base] == '}')
            &&& (l matches Some(x) ==> {
                &&& t.len() == base + 18 + x.len()
                &&& t[base] == ',' && t[base + 1] == '"' && t[base + 2] == 'u' && t[base + 3] == 'i'
                &&& t[base + 4] == '_' && t[base + 5] == 'l' && t[base + 6] == 'a' && t[base + 7] == 'n'
                &&& t[base + 8] == 'g' && t[base + 9] == 'u' && t[base + 10] == 'a' && t[base + 11] == 'g'
                &&& t[base + 12] == 'e' && t[base + 13] == '"' && t[base + 14] == ':' && t[base + 15] == '"'
                &&& (forall|j: int| 0 <= j < x.len() ==> #[trigger] t[base + 16 + j] == x[j])
                &&& t[base + 16 + x.len()] == '"' && t[base + 17 + x.len()] == '}'
            })
        }),
{
    reveal_strlit("{\"model\":\"");
    reveal_strlit("\",\"diarize\":");
    reveal_strlit("true");
    reveal_strlit("false");
    reveal_strlit(",\"ui_language\":\"");
    reveal_strlit("\"");
    reveal_strlit("}");
    let t = config_text(m, d, l);
    let mm = m.len() as int;
    let a = "{\"model\":\""@;
    let b = "\",\"diarize\":"@;
    let dv = if d { "true"@ } else { "false"@ };
    let c = match l {
        Some(x) => ",\"ui_language\":\""@ + x + "\""@,
        None => Seq::<char>::empty(),
    };
    let e = "}"@;
    assert(t == a + m + b + dv + c + e);
    assert forall|j: int| 0 <= j < mm implies #[trigger] t[10 + j] == m[j] by {
        assert((a + m)[10 + j] == m[j]);
    }
    if let Some(x) = l {
        let base = 22 + mm + dv.len();
        assert(c.len() == 17 + x.len());
        assert forall|j: int| 0 <= j < x.len() implies #[trigger] t[base + 16 + j] == x[j] by {
            assert(c[16 + j] == x[j]);
        }
    }
}

/// The fourth `"`-separated field of a text that starts `{"model":"`, then `m`, then `"`.
proof fn lemma_fourth_field(s: Seq<char>, m: Seq<char>)
    requires
        s.len() >= 11 + m.len(),
        s[0] == '{' && s[1] == '"' && s[2] == 'm' && s[3] == 'o' && s[4] == 'd',
        s[5] == 'e' && s[6] == 'l' && s[7] == '"' && s[8] == ':' && s[9] == '"',
        forall|j: int| 0 <= j < m.len() ==> s[10 + j] == m[j] && m[j] != '"',
        s[10 + m.len() as int] == '"',
    ensures
        nth_piece(s, '"', 3) == Some(m),
{
    let mm = m.len() as int;
    lemma_piece_end_is(s, 0, 1, '"');
    lemma_piece_end_is(s, 2, 7, '"');
    lemma_piece_end_is(s, 8, 9, '"');
    assert forall|j: int| 10 <= j < 10 + mm implies s[j] != '"' by {
        assert(s[10 + (j - 10)] == m[j - 10]);
    }
    lemma_piece_end_is(s, 10, 10 + mm, '"');
    let p3 = pieces_from(s, 10, '"');
    assert(p3[0] == s.subrange(10, 10 + mm));
    assert(s.subrange(10, 10 + mm) =~= m);
    let p2 = pieces_from(s, 8, '"');
    let p1 = pieces_from(s, 2, '"');
    let p0 = pieces_from(s, 0, '"');
    assert(p2 == seq![s.subrange(8, 9)] + p3);
    assert(p1 == seq![s.subrange(2, 7)] + p2);
    assert(p0 == seq![s.subrange(0, 1)] + p1);
    assert(split_on(s, '"')[3] == m);
}

/// The first line of a settings text whose model name holds no `"` and no line break:
/// it mentions `"model"`, and its fourth `"`-separated field is the model.
#[verifier::rlimit(30)]
proof fn lemma_first_line(m: Seq<char>, d: bool, l: Option<Seq<char>>)
    requires
        forall|i: int| 0 <= i < m.len() ==> m[i] != '"' && m[i] != '\n',
    ensures
        ({
            let t = config_text(m, d, l);
            let l0 = lines(t)[0];
            &&& lines(t).len() > 0
            &&& contains(l0, "\"model\""@)
            &&& nth_piece(l0, '"', 3) == Some(m)
        }),
{
    reveal_strlit("\"model\"");
    reveal_strlit("\"ui_language\"");
    lemma_text_layout(m, d, l);
    let t = config_text(m, d, l);
    let mm = m.len() as int;
    let base = 22 + mm + (if d { 4int } else { 5int });
    let k = match l {
        Some(x) => base + 16,
        None => t.len() as int,
    };
    assert forall|j: int| 0 <= j < k implies t[j] != '\n' by {
        if 10 <= j < 10 + mm {
            assert(t[10 + (j - 10)] == m[j - 10]);
        }
    }
    lemma_first_line_prefix(t, k);
    let l0 = lines(t)[0];
    let n0 = l0.len() as int;
    assert(forall|j: int| 0 <= j < n0 ==> l0[j] == t[j]);
    crate::text::lemma_contains_at(l0, "\"model\""@, 1);
    assert forall|j: int| 0 <= j < mm implies l0[10 + j] == m[j] && m[j] != '"' by {
        assert(t[10 + j] == m[j]);
    }
    lemma_fourth_field(l0, m);

}

/// With diarization off, a settings text whose fields hold no `"` never holds `p`:
/// `"diarize":` followed by a character other than `f`.
#[verifier::rlimit(40)]
proof fn lemma_no_diarize_on(m: Seq<char>, l: Option<Seq<char>>, p: Seq<char>)
    requires
        forall|i: int| 0 <= i < m.len() ==> m[i] != '"',
        l matches Some(x) ==> forall|i: int| 0 <= i < x.len() ==> x[i] != '"',
        p.len() >= 11,
        p[0] == '"' && p[1] == 'd' && p[2] == 'i' && p[3] == 'a' && p[4] == 'r',
        p[5] == 'i' && p[6] == 'z' && p[7] == 'e' && p[8] == '"' && p[9] == ':',
        p[10] != 'f',
    ensures
        !contains(config_text(m, false, l), p),
{
    lemma_text_layout(m, false, l);
    let t = config_text(m, false, l);
    let mm = m.len() as int;
    let base = language_start(m, false);
    let n = p.len() as int;
    assert forall|i: int| 0 <= i <= t.len() - n implies #[trigger] t.subrange(i, i + n) != p by {
        if i == 1 || i == 7 || i == 10 + mm || i == 20 + mm {
            lemma_mismatch(t, i, p, 1);
        } else if i == 9 {
            if mm < 7 {
                lemma_mismatch(t, i, p, 1 + mm);
            } else if mm == 7 {
                lemma_mismatch(t, i, p, 9);
            } else {
                assert(t[10int + 7] == m[7int]);
                lemma_mismatch(t, i, p, 8);
            }
        } else if i == 12 + mm {
            lemma_mismatch(t, i, p, 10);
        } else if 10 <= i < 10 + mm {
            assert(t[10 + (i - 10)] == m[i - 10]);
            lemma_mismatch(t, i, p, 0);
        } else if i < base {
            lemma_mismatch(t, i, p, 0);
        } else if let Some(x) = l {
            let xl = x.len() as int;
            if i == base + 1 || i == base + 13 {
                lemma_mismatch(t, i, p, 1);
            } else if i == base + 15 {
                if xl < 7 {
                    lemma_mismatch(t, i, p, 1 + xl);
                } else if xl == 7 {
                    lemma_mismatch(t, i, p, 9);
                } else {
                    assert(t[base + 16 + 7] == x[7]);
                    lemma_mismatch(t, i, p, 8);
                }
            } else if i < base + 16 {
                lemma_mismatch(t, i, p, 0);
            } else {
                assert(t[base + 16 + (i - base - 16)] == x[i - base - 16]);
                lemma_mismatch(t, i, p, 0);
            }
        } else {
            lemma_mismatch(t, i, p, 0);
        }
    }
}

/// `language_key_from` finds the key at `k` when it stands there and nowhere from `i` up to `k`.
proof fn lemma_language_key_found(s: Seq<char>, i: int, k: int)
    requires
        0 <= i <= k,
        language_key_at(s, k),
        forall|j: int| i <= j < k ==> !#[trigger] language_key_at(s, j),
    ensures
        language_key_from(s, i) == Some(k),
    decreases k - i,
{
    if i < k {
        lemma_language_key_found(s, i + 1, k);
    }
}

/// `language_key_from` finds nothing when the key stands nowhere from `i` on.
proof fn lemma_language_key_none(s: Seq<char>, i: int)
    requires
        0 <= i,
        forall|j: int| i <= j ==> !#[trigger] language_key_at(s, j),
    ensures
        language_key_from(s, i) is None,
    decreases s.len() + 1 - i,
{
    if i + language_key().len() <= s.len() {
        lemma_language_key_none(s, i + 1);
    }
}

/// Where `language_key_from` finds the key, the key stands.
proof fn lemma_language_key_bounds(s: Seq<char>, i: int)
    ensures
        language_key_from(s, i) matches Some(k) ==> language_key_at(s, k),
    decreases s.len() + 1 - i,
{
    if 0 <= i && i + language_key().len() <= s.len() && !language_key_at(s, i) {
        lemma_language_key_bounds(s, i + 1);
    }
}

/// Before the interface-language part, a settings text whose model name holds no `"`
/// holds no `"ui_language"` key: where the model is itself named `ui_language`, a comma,
/// not a colon, follows it.
#[verifier::rlimit(40)]
proof fn lemma_key_not_before(m: Seq<char>, d: bool, l: Option<Seq<char>>)
    requires
        forall|i: int| 0 <= i < m.len() ==> m[i] != '"',
    ensures
        forall|i: int| 0 <= i < language_start(m, d) ==> !#[trigger] language_key_at(config_text(m, d, l), i),
{
    reveal_strlit("\"ui_language\"");
    reveal_strlit("ui_language");
    lemma_text_layout(m, d, l);
    let t = config_text(m, d, l);
    let p = language_key();
    let w = "ui_language"@;
    let mm = m.len() as int;
    assert(p.len() == 13);
    assert forall|i: int| 0 <= i < language_start(m, d) implies !#[trigger] language_key_at(t, i) by {
        if i + 13 <= t.len() {
            if i == 1 || i == 7 || i == 10 + mm || i == 12 + mm || i == 20 + mm {
                lemma_mismatch(t, i, p, 1);
            } else if i == 9 {
                if mm < 11 {
                    lemma_mismatch(t, i, p, 1 + mm);
                } else if exists|j: int| 0 <= j < 11 && m[j] != w[j] {
                    let j = choose|j: int| 0 <= j < 11 && m[j] != w[j];
                    assert(t[10 + j] == m[j]);
                    lemma_mismatch(t, i, p, 1 + j);
                } else if mm == 11 {
                    assert(skip_space(t, 22) == 22);
                } else {
                    assert(t[10int + 11] == m[11int]);
                    lemma_mismatch(t, i, p, 12);
                }
            } else if 10 <= i < 10 + mm {
                assert(t[10 + (i - 10)] == m[i - 10]);
                lemma_mismatch(t, i, p, 0);
            } else {
                lemma_mismatch(t, i, p, 0);
            }
        }
    }
}

/// The interface language read from a settings text is the one written, when it holds no `"`.
#[verifier::rlimit(40)]
proof fn lemma_language_read_back(m: Seq<char>, d: bool, l: Option<Seq<char>>)
    requires
        forall|i: int| 0 <= i < m.len() ==> m[i] != '"',
        l matches Some(x) ==> forall|i: int| 0 <= i < x.len() ==> x[i] != '"',
    ensures
        saved_ui_language(config_text(m, d, l)) == l,
{
    reveal_strlit("\"ui_language\"");
    lemma_text_layout(m, d, l);
    lemma_key_not_before(m, d, l);
    let t = config_text(m, d, l);
    let key = language_key();
    let base = language_start(m, d);
    assert(key.len() == 13);
    if let Some(x) = l {
        let xl = x.len() as int;
        assert(t.subrange(base + 1, base + 14) =~= key);
        assert(skip_space(t, base + 14) == base + 14);
        assert(language_key_at(t, base + 1));
        assert forall|j: int| 0 <= j < base + 1 implies !#[trigger] language_key_at(t, j) by {
            if j == base {
                lemma_mismatch(t, j, key, 0);
            }
        }
        lemma_language_key_found(t, 0, base + 1);
        let rest = t.subrange(base + 15, t.len() as int);
        assert(rest.len() == xl + 3);
        assert(rest[0] == '"');
        assert forall|j: int| 0 <= j < xl implies rest[1 + j] == x[j] && rest[1 + j] != '"' by {
            assert(t[base + 16 + j] == x[j]);
        }
        assert(rest[1 + xl] == '"');
        assert forall|k: int| 1 <= k < 1 + xl implies rest[k] != '"' by {
            assert(rest[1 + (k - 1)] == x[k - 1]);
        }
        lemma_piece_end_is(rest, 0, 0, '"');
        lemma_piece_end_is(rest, 1, 1 + xl, '"');
        let p1 = pieces_from(rest, 1, '"');
        assert(p1 == seq![rest.subrange(1, 1 + xl)] + pieces_from(rest, 2 + xl, '"'));
        assert(pieces_from(rest, 0, '"') == seq![rest.subrange(0, 0)] + p1);
        assert(rest.subrange(1, 1 + xl) =~= x);
        assert(split_on(rest, '"')[1] == x);
    } else {
        assert forall|j: int| 0 <= j implies !#[trigger] language_key_at(t, j) by {
            if j >= base {
                assert(j + 13 > t.len());
            }
        }
        lemma_language_key_none(t, 0);
    }
}

/// The model read from a settings text is the one written, when its name holds no `"`
/// and no line break.
proof fn lemma_model_read_back(m: Seq<char>, d: bool, l: Option<Seq<char>>)
    requires
        forall|i: int| 0 <= i < m.len() ==> m[i] != '"' && m[i] != '\n',
    ensures
        saved_model(config_text(m, d, l)) == m,
{
    let t = config_text(m, d, l);
    lemma_first_line(m, d, l);
    let ls = lines(t);
    assert(first_containing(ls, "\"model\""@) == Some(ls[0]));
}

/// The diarization flag read from a settings text is the one written, when the model's
/// name and the language hold no `"`.
proof fn lemma_diarize_read_back(m: Seq<char>, d: bool, l: Option<Seq<char>>)
    requires
        forall|i: int| 0 <= i < m.len() ==> m[i] != '"',
        l matches Some(x) ==> forall|i: int| 0 <= i < x.len() ==> x[i] != '"',
    ensures
        saved_diarize(config_text(m, d, l)) == d,
{
    reveal_strlit("\"diarize\":true");
    reveal_strlit("\"diarize\": true");
    let t = config_text(m, d, l);
    let p1 = "\"diarize\":true"@;
    let p2 = "\"diarize\": true"@;
    if d {
        lemma_text_layout(m, d, l);
        crate::text::lemma_contains_at(t, p1, 12 + m.len() as int);
    } else {
        lemma_no_diarize_on(m, l, p1);
        lemma_no_diarize_on(m, l, p2);
    }
}

/// Saving the settings and reading them back gives back what was saved: the model (when its
/// name holds no `"` and no line break), the diarization flag, and the interface language
/// (when it holds no `"`).
pub proof fn lemma_config_round_trip(m: Seq<char>, d: bool, l: Option<Seq<char>>)
    requires
        forall|i: int| 0 <= i < m.len() ==> m[i] != '"' && m[i] != '\n',
        l matches Some(x) ==> forall|i: int| 0 <= i < x.len() ==> x[i] != '"',
    ensures
        parsed_config(config_text(m, d, l)) == (SavedConfigView { model: m, diarize: d, ui_language: l }),
{
    lemma_model_read_back(m, d, l);
    lemma_diarize_read_back(m, d, l);
    lemma_language_read_back(m, d, l);
}

} // verus!
