//! Command-line settings and the `.plmrc` files that hold them: one
//! `key=value` per line, `#` starting a comment.
use crate::text::{first_index, is_ws, split_char, split_on, starts_with, has_prefix, str_equal, trim, trim_view, lemma_first_index_at, lemma_first_index_none};
use crate::fs::{join_spec, FileSystem};
use vstd::prelude::*;

verus! {

/// The registry used when no `.plmrc` file names one.
pub const DEFAULT_REGISTRY: &'static str = "http://[::1]:7575";

/// The name of the settings file, in the home directory or the project directory.
pub const PLM_CONFIG_FILE: &'static str = ".plmrc";

/// Settings of the command line tool.
pub struct CliConfigs {
    pub current_dir: String,
    pub username: Option<String>,
    pub password: Option<String>,
    pub registry: String,
    pub token: Option<String>,
}

/// The settings that `plm config show --json` prints.
pub struct DotPlmRC {
    pub registry: String,
    pub username: Option<String>,
    pub token: Option<String>,
}

/// The path of the home `.plmrc` file, for the home directory `home`.
pub fn get_global_plmrc_path(home: &str) -> (r: String)
    ensures
        r@ == join_spec(home@, PLM_CONFIG_FILE@),
{
    FileSystem::join_paths(home, PLM_CONFIG_FILE)
}

/// Builder of settings; it has no options.
pub struct CliConfigBuilder {}

/// The settings as sequences of characters.
pub struct ConfigsModel {
    pub current_dir: Seq<char>,
    pub username: Option<Seq<char>>,
    pub password: Option<Seq<char>>,
    pub registry: Seq<char>,
    pub token: Option<Seq<char>>,
}

pub open spec fn opt_view(o: Option<String>) -> Option<Seq<char>> {
    match o {
        Some(s) => Some(s@),
        None => None,
    }
}

pub open spec fn opt_or_empty(o: Option<Seq<char>>) -> Seq<char> {
    match o {
        Some(s) => s,
        None => Seq::empty(),
    }
}

/// A line of a `.plmrc` file: after trimming, an empty line or one that starts
/// with `#` is skipped, as is one without `=`. Otherwise the key is what comes
/// before the first `=` and the value what follows it, both trimmed.
pub open spec fn plmrc_entry(line: Seq<char>) -> Option<(Seq<char>, Seq<char>)> {
    let t = trim_view(line);
    if t.len() == 0 || t[0] == '#' {
        None
    } else {
        let k = first_index(t, '=');
        if k < 0 {
            None
        } else {
            Some((trim_view(t.take(k)), trim_view(t.skip(k + 1))))
        }
    }
}

/// The entries of the given lines, in order.
pub open spec fn plmrc_entries(lines: Seq<Seq<char>>) -> Seq<(Seq<char>, Seq<char>)>
    decreases lines.len(),
{
    if lines.len() == 0 {
        Seq::empty()
    } else {
        let prev = plmrc_entries(lines.drop_last());
        match plmrc_entry(lines.last()) {
            None => prev,
            Some(e) => prev.push(e),
        }
    }
}

/// The entries of a `.plmrc` text.
pub open spec fn parse_plmrc_spec(text: Seq<char>) -> Seq<(Seq<char>, Seq<char>)> {
    plmrc_entries(split_on(text, '\n'))
}

/// The value of `key` among `entries`: the last entry with that key wins.
pub open spec fn entry_value(entries: Seq<(Seq<char>, Seq<char>)>, key: Seq<char>) -> Option<Seq<char>>
    decreases entries.len(),
{
    if entries.len() == 0 {
        None
    } else if entries.last().0 == key {
        Some(entries.last().1)
    } else {
        entry_value(entries.drop_last(), key)
    }
}

pub open spec fn entries_view(entries: Seq<(String, String)>) -> Seq<(Seq<char>, Seq<char>)> {
    entries.map_values(|e: (String, String)| (e.0@, e.1@))
}

/// The keys a `.plmrc` file may set.
pub open spec fn supported_key(k: Seq<char>) -> bool {
    k == "username"@ || k == "password"@ || k == "registry"@ || k == "token"@
}

/// The keys that a `.plmrc` file may not set, each once, in the order they first occur.
pub open spec fn unsupported_keys(keys: Seq<Seq<char>>) -> Seq<Seq<char>>
    decreases keys.len(),
{
    if keys.len() == 0 {
        Seq::empty()
    } else {
        let before = unsupported_keys(keys.drop_last());
        let k = keys.last();
        if !supported_key(k) && !before.contains(k) {
            before.push(k)
        } else {
            before
        }
    }
}

/// Whether `s` is among `texts`.
fn contains_text(texts: &Vec<String>, s: &str) -> (r: bool)
    ensures
        r == texts@.map_values(|t: String| t@).contains(s@),
{
    let ghost tv = texts@.map_values(|t: String| t@);
    let mut i: usize = 0;
    while i < texts.len()
        invariant
            0 <= i <= texts.len(),
            tv == texts@.map_values(|t: String| t@),
            forall|j: int| 0 <= j < i ==> tv[j] != s@,
        decreases texts.len() - i,
    {
        if str_equal(texts[i].as_str(), s) {
            assert(tv[i as int] == s@);
            return true;
        }
        i = i + 1;
    }
    false
}

/// The settings after reading the home file's `global` entries and then the project
/// file's `local` ones. The project file may set `username`, `password` and
/// `registry`; the home file may also set `token`.
pub open spec fn apply_plmrc(
    c: ConfigsModel,
    global: Seq<(Seq<char>, Seq<char>)>,
    local: Option<Seq<(Seq<char>, Seq<char>)>>,
) -> ConfigsModel {
    let l = match local {
        Some(l) => l,
        None => Seq::empty(),
    };
    ConfigsModel {
        current_dir: c.current_dir,
        username: match entry_value(l, "username"@) {
            Some(v) => Some(v),
            None => match entry_value(global, "username"@) {
                Some(v) => Some(v),
                None => c.username,
            },
        },
        password: match entry_value(l, "password"@) {
            Some(v) => Some(v),
            None => match entry_value(global, "password"@) {
                Some(v) => Some(v),
                None => c.password,
            },
        },
        registry: match entry_value(l, "registry"@) {
            Some(v) => v,
            None => match entry_value(global, "registry"@) {
                Some(v) => v,
                None => c.registry,
            },
        },
        token: match entry_value(global, "token"@) {
            Some(v) => Some(v),
            None => c.token,
        },
    }
}

/// A setting made in the project's `.plmrc` wins over the home file's, and a home
/// setting wins over what was there before; the project file cannot set the token.
pub proof fn lemma_project_file_overrides(
    c: ConfigsModel,
    global: Seq<(Seq<char>, Seq<char>)>,
    local: Seq<(Seq<char>, Seq<char>)>,
)
    ensures
        entry_value(local, "username"@) matches Some(v) ==> apply_plmrc(c, global, Some(local)).username
            == Some(v),
        entry_value(local, "password"@) matches Some(v) ==> apply_plmrc(c, global, Some(local)).password
            == Some(v),
        entry_value(local, "registry"@) matches Some(v) ==> apply_plmrc(c, global, Some(local)).registry
            == v,
        entry_value(local, "registry"@) is None ==> (entry_value(global, "registry"@) matches Some(v)
            ==> apply_plmrc(c, global, Some(local)).registry == v),
        apply_plmrc(c, global, Some(local)).token == apply_plmrc(c, global, None).token,
        apply_plmrc(c, global, Some(local)).current_dir == c.current_dir,
        entry_value(local, "username"@) is None ==> (entry_value(global, "username"@) matches Some(v)
            ==> apply_plmrc(c, global, Some(local)).username == Some(v)),
        entry_value(local, "password"@) is None ==> (entry_value(global, "password"@) matches Some(v)
            ==> apply_plmrc(c, global, Some(local)).password == Some(v)),
        entry_value(global, "token"@) matches Some(v) ==> apply_plmrc(c, global, Some(local)).token == Some(v),
        entry_value(local, "username"@) is None && entry_value(global, "username"@) is None ==> apply_plmrc(
            c,
            global,
            Some(local),
        ).username == c.username,
        entry_value(local, "password"@) is None && entry_value(global, "password"@) is None ==> apply_plmrc(
            c,
            global,
            Some(local),
        ).password == c.password,
{
}

/// Without a project `.plmrc`, each setting the home file makes is applied, and a
/// setting it does not make keeps its value.
pub proof fn lemma_home_file_applies(c: ConfigsModel, global: Seq<(Seq<char>, Seq<char>)>)
    ensures
        entry_value(global, "username"@) matches Some(v) ==> apply_plmrc(c, global, None).username == Some(v),
        entry_value(global, "password"@) matches Some(v) ==> apply_plmrc(c, global, None).password == Some(v),
        entry_value(global, "registry"@) matches Some(v) ==> apply_plmrc(c, global, None).registry == v,
        entry_value(global, "token"@) matches Some(v) ==> apply_plmrc(c, global, None).token == Some(v),
        entry_value(global, "username"@) is None ==> apply_plmrc(c, global, None).username == c.username,
        entry_value(global, "password"@) is None ==> apply_plmrc(c, global, None).password == c.password,
        entry_value(global, "registry"@) is None ==> apply_plmrc(c, global, None).registry == c.registry,
        entry_value(global, "token"@) is None ==> apply_plmrc(c, global, None).token == c.token,
        apply_plmrc(c, global, None).current_dir == c.current_dir,
{
    assert(entry_value(Seq::<(Seq<char>, Seq<char>)>::empty(), "username"@) is None);
    assert(entry_value(Seq::<(Seq<char>, Seq<char>)>::empty(), "password"@) is None);
    assert(entry_value(Seq::<(Seq<char>, Seq<char>)>::empty(), "registry"@) is None);
}

/// The value of a key is that of its last entry: appending an entry makes its key
/// read as its value and leaves every other key as it was, and no key has a value
/// among no entries.
pub proof fn lemma_entry_value_last_wins(entries: Seq<(Seq<char>, Seq<char>)>, key: Seq<char>, value: Seq<char>, other: Seq<char>)
    ensures
        entry_value(Seq::empty(), other) is None,
        entry_value(entries.push((key, value)), key) == Some(value),
        other != key ==> entry_value(entries.push((key, value)), other) == entry_value(entries, other),
        entry_value(entries, other) is None <==> forall|i: int| 0 <= i < entries.len() ==> (#[trigger] entries[i]).0 != other,
    decreases entries.len(),
{
    assert(entries.push((key, value)).drop_last() =~= entries);
    if entries.len() > 0 {
        lemma_entry_value_last_wins(entries.drop_last(), key, value, other);
        if entries.last().0 != other {
            assert forall|i: int| 0 <= i < entries.len() - 1 implies #[trigger] entries[i] == entries.drop_last()[i] by {}
            if entry_value(entries, other) is None {
                assert forall|i: int| 0 <= i < entries.len() implies (#[trigger] entries[i]).0 != other by {
                    if i < entries.len() - 1 {
                        assert(entries[i] == entries.drop_last()[i]);
                    }
                }
            } else {
                let i = choose|i: int| 0 <= i < entries.drop_last().len() && (#[trigger] entries.drop_last()[i]).0 == other;
                assert(entries[i] == entries.drop_last()[i]);
            }
        } else {
            assert(entries[entries.len() - 1].0 == other);
        }
    }
}

/// The text of the home `.plmrc` file written from settings.
pub open spec fn plmrc_text(c: ConfigsModel) -> Seq<char> {
    "registry="@ + c.registry + seq!['\n'] + "username="@ + opt_or_empty(c.username) + seq!['\n']
        + "token="@ + opt_or_empty(c.token)
}

/// A value that survives being written to and read from a `.plmrc` line:
/// no line break, and no whitespace at either end.
pub open spec fn clean_value(v: Seq<char>) -> bool {
    &&& !v.contains('\n')
    &&& v.len() > 0 ==> !is_ws(v[0]) && !is_ws(v.last())
}

proof fn lemma_split_line(x: Seq<char>, y: Seq<char>)
    requires
        !x.contains('\n'),
    ensures
        split_on(x + seq!['\n'] + y, '\n') == seq![x] + split_on(y, '\n'),
{
    let s = x + seq!['\n'] + y;
    assert forall|j: int| 0 <= j < x.len() implies s[j] != '\n' by {
        assert(s[j] == x[j]);
    }
    lemma_first_index_at(s, '\n', x.len() as int);
    assert(s.take(x.len() as int) =~= x);
    assert(s.skip(x.len() as int + 1) =~= y);
}

proof fn lemma_split_last(x: Seq<char>)
    requires
        !x.contains('\n'),
    ensures
        split_on(x, '\n') == seq![x],
{
    assert forall|j: int| 0 <= j < x.len() implies x[j] != '\n' by {}
    lemma_first_index_none(x, '\n');
}

proof fn lemma_trim_identity(s: Seq<char>)
    requires
        s.len() > 0,
        !is_ws(s[0]),
        !is_ws(s.last()),
    ensures
        trim_view(s) == s,
{
}

/// A line `key=value` with a clean value reads back as that entry.
proof fn lemma_entry_line(key: Seq<char>, v: Seq<char>)
    requires
        key.len() > 0,
        !key.contains('='),
        key[0] != '#',
        !is_ws(key[0]),
        !is_ws(key.last()),
        clean_value(v),
    ensures
        plmrc_entry(key + seq!['='] + v) == Some((key, v)),
{
    let s = key + seq!['='] + v;
    assert(s[0] == key[0]);
    if v.len() > 0 {
        assert(s.last() == v.last());
    } else {
        assert(s.last() == '=');
    }
    lemma_trim_identity(s);
    assert forall|j: int| 0 <= j < key.len() implies s[j] != '=' by {
        assert(s[j] == key[j]);
    }
    lemma_first_index_at(s, '=', key.len() as int);
    assert(s.take(key.len() as int) =~= key);
    assert(s.skip(key.len() as int + 1) =~= v);
    lemma_trim_identity(key);
    if v.len() > 0 {
        lemma_trim_identity(v);
    } else {
        assert(trim_view(v) == v);
    }
}

/// The entries read from the text written for `c`.
pub proof fn lemma_plmrc_text_entries(c: ConfigsModel)
    requires
        clean_value(c.registry),
        clean_value(opt_or_empty(c.username)),
        clean_value(opt_or_empty(c.token)),
    ensures
        parse_plmrc_spec(plmrc_text(c)) == seq![
            ("registry"@, c.registry),
            ("username"@, opt_or_empty(c.username)),
            ("token"@, opt_or_empty(c.token)),
        ],
{
    reveal_strlit("registry=");
    reveal_strlit("username=");
    reveal_strlit("token=");
    reveal_strlit("registry");
    reveal_strlit("username");
    reveal_strlit("token");
    let r = c.registry;
    let u = opt_or_empty(c.username);
    let t = opt_or_empty(c.token);
    let kr = "registry"@;
    let ku = "username"@;
    let kt = "token"@;
    assert("registry="@ =~= kr + seq!['=']);
    assert("username="@ =~= ku + seq!['=']);
    assert("token="@ =~= kt + seq!['=']);
    let a = kr + seq!['='] + r;
    let b = ku + seq!['='] + u;
    let d = kt + seq!['='] + t;
    assert(plmrc_text(c) =~= a + seq!['\n'] + (b + seq!['\n'] + d));
    assert(!kr.contains('\n') && !kr.contains('='));
    assert(!ku.contains('\n') && !ku.contains('='));
    assert(!kt.contains('\n') && !kt.contains('='));
    assert(!a.contains('\n')) by {
        if a.contains('\n') {
            let j = choose|j: int| 0 <= j < a.len() && a[j] == '\n';
            if j < kr.len() {
                assert(kr[j] == '\n');
            } else if j > kr.len() {
                assert(r[j - kr.len() - 1] == '\n');
            }
        }
    }
    assert(!b.contains('\n')) by {
        if b.contains('\n') {
            let j = choose|j: int| 0 <= j < b.len() && b[j] == '\n';
            if j < ku.len() {
                assert(ku[j] == '\n');
            } else if j > ku.len() {
                assert(u[j - ku.len() - 1] == '\n');
            }
        }
    }
    assert(!d.contains('\n')) by {
        if d.contains('\n') {
            let j = choose|j: int| 0 <= j < d.len() && d[j] == '\n';
            if j < kt.len() {
                assert(kt[j] == '\n');
            } else if j > kt.len() {
                assert(t[j - kt.len() - 1] == '\n');
            }
        }
    }
    lemma_split_line(a, b + seq!['\n'] + d);
    lemma_split_line(b, d);
    lemma_split_last(d);
    let lines = seq![a, b, d];
    assert(split_on(plmrc_text(c), '\n') =~= lines);
    lemma_entry_line(kr, r);
    lemma_entry_line(ku, u);
    lemma_entry_line(kt, t);
    assert(lines.drop_last() =~= seq![a, b]);
    assert(seq![a, b].drop_last() =~= seq![a]);
    assert(seq![a].drop_last() =~= Seq::<Seq<char>>::empty());
    assert(seq![a].last() == a);
    assert(plmrc_entries(Seq::<Seq<char>>::empty()) == Seq::<(Seq<char>, Seq<char>)>::empty());
    assert(plmrc_entries(seq![a]) =~= seq![(kr, r)]);
    assert(plmrc_entries(seq![a, b]) =~= seq![(kr, r), (ku, u)]);
}

/// Writing settings to the home `.plmrc` text and reading it back gives back the
/// registry, the username and the token; an absent username or token comes back
/// empty. This holds whatever settings the text is read into, when no project file
/// overrides it and the values hold no line break or surrounding whitespace.
pub proof fn lemma_plmrc_round_trip(c: ConfigsModel, base: ConfigsModel)
    requires
        clean_value(c.registry),
        clean_value(opt_or_empty(c.username)),
        clean_value(opt_or_empty(c.token)),
    ensures
        apply_plmrc(base, parse_plmrc_spec(plmrc_text(c)), None).registry == c.registry,
        apply_plmrc(base, parse_plmrc_spec(plmrc_text(c)), None).username == Some(
            opt_or_empty(c.username),
        ),
        apply_plmrc(base, parse_plmrc_spec(plmrc_text(c)), None).token == Some(
            opt_or_empty(c.token),
        ),
{
    lemma_plmrc_text_entries(c);
    reveal_strlit("registry");
    reveal_strlit("username");
    reveal_strlit("token");
    reveal_strlit("password");
    let e = parse_plmrc_spec(plmrc_text(c));
    let r = c.registry;
    let u = opt_or_empty(c.username);
    let t = opt_or_empty(c.token);
    assert(e.drop_last() =~= seq![("registry"@, r), ("username"@, u)]);
    assert(e.drop_last().drop_last() =~= seq![("registry"@, r)]);
    assert("token"@.len() == 5 && "username"@.len() == 8 && "registry"@.len() == 8);
    assert("username"@[0] != "registry"@[0]);
    assert(entry_value(Seq::<(Seq<char>, Seq<char>)>::empty(), "username"@) is None);
    assert(entry_value(e, "token"@) == Some(t));
    assert(e.last() == ("token"@, t));
    assert(e.drop_last().last() == ("username"@, u));
    assert(e.drop_last().drop_last().last() == ("registry"@, r));
    assert("token"@ != "username"@);
    assert("token"@ != "registry"@);
    assert("username"@ != "registry"@);
    assert(entry_value(e.drop_last(), "username"@) == Some(u));
    assert(entry_value(e, "username"@) == Some(u));
    assert(entry_value(e.drop_last().drop_last(), "registry"@) == Some(r));
    assert(entry_value(e.drop_last(), "registry"@) == Some(r));
    assert(entry_value(e, "registry"@) == Some(r));
}

/// Index of the last entry with key `key`.
fn find_entry(entries: &Vec<(String, String)>, key: &str) -> (r: Option<usize>)
    ensures
        match r {
            None => entry_value(entries_view(entries@), key@) is None,
            Some(k) => k < entries.len() && entry_value(entries_view(entries@), key@) == Some(
                entries@[k as int].1@,
            ),
        },
{
    let ghost e = entries_view(entries@);
    let mut i: usize = entries.len();
    assert(e.take(i as int) =~= e);
    while i > 0
        invariant
            0 <= i <= entries.len(),
            e == entries_view(entries@),
            entry_value(e, key@) == entry_value(e.take(i as int), key@),
        decreases i,
    {
        assert(e.take(i as int).drop_last() =~= e.take(i - 1));
        if str_equal(entries[i - 1].0.as_str(), key) {
            return Some(i - 1);
        }
        i = i - 1;
    }
    None
}

/// The value of `key` among the entries of a `.plmrc` file; the last entry wins.
pub fn plmrc_value(entries: &Vec<(String, String)>, key: &str) -> (r: Option<String>)
    ensures
        opt_view(r) == entry_value(entries_view(entries@), key@),
{
    match find_entry(entries, key) {
        Some(k) => Some(entries[k].1.clone()),
        None => None,
    }
}

/// Index of the first `c` in `s`.
fn find_char(s: &str, c: char) -> (r: Option<usize>)
    ensures
        match r {
            None => first_index(s@, c) == -1,
            Some(k) => k < s@.len() && first_index(s@, c) == k,
        },
{
    let n = s.unicode_len();
    let mut i: usize = 0;
    while i < n
        invariant
            0 <= i <= n,
            n == s@.len(),
            forall|j: int| 0 <= j < i ==> s@[j] != c,
        decreases n - i,
    {
        if s.get_char(i) == c {
            proof {
                lemma_first_index_at(s@, c, i as int);
            }
            return Some(i);
        }
        i = i + 1;
    }
    proof {
        lemma_first_index_none(s@, c);
    }
    None
}

/// Reads the entries of a `.plmrc` text, in order.
pub fn parse_plmrc_contents(text: &str) -> (r: Vec<(String, String)>)
    ensures
        entries_view(r@) == parse_plmrc_spec(text@),
{
    let lines = split_char(text, '\n');
    let ghost ls = lines@.map_values(|p: String| p@);
    let mut out: Vec<(String, String)> = Vec::new();
    let mut i: usize = 0;
    assert(ls.take(0) =~= Seq::<Seq<char>>::empty());
    assert(entries_view(out@) =~= Seq::<(Seq<char>, Seq<char>)>::empty());
    while i < lines.len()
        invariant
            0 <= i <= lines.len(),
            ls == lines@.map_values(|p: String| p@),
            ls == split_on(text@, '\n'),
            entries_view(out@) == plmrc_entries(ls.take(i as int)),
        decreases lines.len() - i,
    {
        assert(ls.take(i + 1).drop_last() =~= ls.take(i as int));
        assert(ls.take(i + 1).last() == lines@[i as int]@);
        let t = trim(lines[i].as_str());
        proof {
            reveal_strlit("#");
            assert("#"@ =~= seq!['#']);
            if t@.len() > 0 {
                assert(t@.take(1) =~= seq![t@[0]]);
                if t@[0] == '#' {
                    assert(t@.take(1) =~= "#"@);
                }
                if has_prefix(t@, "#"@) {
                    assert(t@.take(1)[0] == '#');
                }
            }
        }
        if t.unicode_len() > 0 && !starts_with(t.as_str(), "#") {
            match find_char(t.as_str(), '=') {
                None => {},
                Some(k) => {
                    let n = t.unicode_len();
                    let key = trim(t.as_str().substring_char(0, k));
                    let value = trim(t.as_str().substring_char(k + 1, n));
                    assert(t@.subrange(0, k as int) =~= t@.take(k as int));
                    assert(t@.subrange(k + 1, n as int) =~= t@.skip(k + 1));
                    let ghost before = out@;
                    out.push((key, value));
                    assert(entries_view(out@) =~= entries_view(before).push(
                        (trim_view(t@.take(k as int)), trim_view(t@.skip(k + 1))),
                    ));
                },
            }
        } else {
            proof {
                if t@.len() > 0 {
                    assert(t@.take(1) =~= seq![t@[0]]);
                }
            }
        }
        i = i + 1;
    }
    assert(ls.take(i as int) =~= ls);
    out
}

fn opt_str(o: &Option<String>) -> (r: &str)
    ensures
        r@ == opt_or_empty(opt_view(*o)),
{
    match o {
        Some(s) => s.as_str(),
        None => {
            proof {
                reveal_strlit("");
            }
            ""
        },
    }
}

fn copy_opt(o: &Option<String>) -> (r: Option<String>)
    ensures
        opt_view(r) == opt_view(*o),
{
    match o {
        Some(s) => Some(s.clone()),
        None => None,
    }
}

impl CliConfigs {
    pub open spec fn model(&self) -> ConfigsModel {
        ConfigsModel {
            current_dir: self.current_dir@,
            username: opt_view(self.username),
            password: opt_view(self.password),
            registry: self.registry@,
            token: opt_view(self.token),
        }
    }

    /// Settings for the project at `current_dir`, with the default registry and no credentials.
    pub fn new(current_dir: String) -> (c: Self)
        ensures
            c.current_dir@ == current_dir@,
            c.username is None,
            c.password is None,
            c.token is None,
            c.registry@ == DEFAULT_REGISTRY@,
    {
        CliConfigs {
            current_dir,
            username: None,
            password: None,
            registry: String::from_str(DEFAULT_REGISTRY),
            token: None,
        }
    }

    /// The settings that are shown to the user.
    pub fn to_dot_plmrc(&self) -> (d: DotPlmRC)
        ensures
            d.registry@ == self.registry@,
            opt_view(d.username) == opt_view(self.username),
            opt_view(d.token) == opt_view(self.token),
    {
        DotPlmRC {
            registry: self.registry.clone(),
            username: copy_opt(&self.username),
            token: copy_opt(&self.token),
        }
    }

    /// The text of the home `.plmrc` file for these settings: registry, username and
    /// token, the missing ones empty.
    pub fn plmrc_contents(&self) -> (r: String)
        ensures
            r@ == plmrc_text(self.model()),
    {
        proof {
            reveal_strlit("\n");
        }
        let mut s = String::from_str("registry=");
        s.append(self.registry.as_str());
        s.append("\n");
        s.append("username=");
        s.append(opt_str(&self.username));
        s.append("\n");
        s.append("token=");
        s.append(opt_str(&self.token));
        s
    }

    /// Applies the entries read from the home `.plmrc` file and, when there is one,
    /// from the project's. Returns the keys of the home file that are not supported, each once, in the
    /// order they first occur.
    pub fn load_plmrc_files(
        &mut self,
        global: &Vec<(String, String)>,
        local: Option<&Vec<(String, String)>>,
    ) -> (unsupported: Vec<String>)
        ensures
            final(self).model() == apply_plmrc(
                old(self).model(),
                entries_view(global@),
                match local {
                    Some(l) => Some(entries_view(l@)),
                    None => None,
                },
            ),
            unsupported@.map_values(|k: String| k@) == unsupported_keys(
                entries_view(global@).map_values(|e: (Seq<char>, Seq<char>)| e.0),
            ),
    {
        let empty: Vec<(String, String)> = Vec::new();
        let l = match local {
            Some(l) => l,
            None => &empty,
        };
        proof {
            assert(entries_view(empty@) =~= Seq::<(Seq<char>, Seq<char>)>::empty());
        }
        match find_entry(l, "username") {
            Some(k) => {
                self.username = Some(l[k].1.clone());
            },
            None => match find_entry(global, "username") {
                Some(k) => {
                    self.username = Some(global[k].1.clone());
                },
                None => {},
            },
        }
        match find_entry(l, "password") {
            Some(k) => {
                self.password = Some(l[k].1.clone());
            },
            None => match find_entry(global, "password") {
                Some(k) => {
                    self.password = Some(global[k].1.clone());
                },
                None => {},
            },
        }
        match find_entry(l, "registry") {
            Some(k) => {
                self.registry = l[k].1.clone();
            },
            None => match find_entry(global, "registry") {
                Some(k) => {
                    self.registry = global[k].1.clone();
                },
                None => {},
            },
        }
        match find_entry(global, "token") {
            Some(k) => {
                self.token = Some(global[k].1.clone());
            },
            None => {},
        }
        let ghost keys = entries_view(global@).map_values(|e: (Seq<char>, Seq<char>)| e.0);
        let mut unsupported: Vec<String> = Vec::new();
        let mut i: usize = 0;
        assert(unsupported@.map_values(|k: String| k@) =~= unsupported_keys(keys.take(0)));
        while i < global.len()
            invariant
                0 <= i <= global.len(),
                keys == entries_view(global@).map_values(|e: (Seq<char>, Seq<char>)| e.0),
                unsupported@.map_values(|k: String| k@) == unsupported_keys(keys.take(i as int)),
            decreases global.len() - i,
        {
            let key = global[i].0.as_str();
            proof {
                reveal_strlit("username");
                reveal_strlit("password");
                reveal_strlit("registry");
                reveal_strlit("token");
                assert(keys.take(i + 1).drop_last() =~= keys.take(i as int));
                assert(keys.take(i + 1).last() == key@);
            }
            let ghost before = unsupported@;
            if !(str_equal(key, "username") || str_equal(key, "password") || str_equal(key, "registry")
            || str_equal(key, "token")) && !contains_text(&unsupported, key) {
                unsupported.push(String::from_str(key));
                assert(unsupported@.map_values(|k: String| k@) =~= before.map_values(|k: String| k@).push(key@));
            } else {
                assert(unsupported@ == before);
            }
            i = i + 1;
        }
        assert(keys.take(i as int) =~= keys);
        unsupported
    }
}

} // verus!
