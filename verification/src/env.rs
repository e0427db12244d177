//! The environment that port expressions are resolved against, and the
//! `${NAME}`, `${NAME-default}` and `${NAME:-default}` expressions themselves.

use vstd::prelude::*;
use vstd::string::*;
use crate::text::{
    chars_of, copy_range, ends_with, find_char, first_index, has_prefix, same_chars, split,
    split_chars, starts_with, string_of, texts, trim_chars, trimmed,
};

verus! {

/// The map that a list of bindings stands for: a later binding of a name
/// replaces an earlier one.
pub open spec fn bindings(entries: Seq<(String, String)>) -> Map<Seq<char>, Seq<char>>
    decreases entries.len(),
{
    if entries.len() == 0 {
        Map::empty()
    } else {
        bindings(entries.drop_last()).insert(entries.last().0@, entries.last().1@)
    }
}

/// Variables and their values.
pub struct Env {
    pub entries: Vec<(String, String)>,
}

impl View for Env {
    type V = Map<Seq<char>, Seq<char>>;

    open spec fn view(&self) -> Map<Seq<char>, Seq<char>> {
        bindings(self.entries@)
    }
}

impl Env {
    /// The environment without any variable.
    pub fn new() -> (r: Env)
        ensures
            r@ == Map::<Seq<char>, Seq<char>>::empty(),
    {
        Env { entries: Vec::new() }
    }

    /// Sets `key` to `value`, whether or not it was set before.
    pub fn insert(&mut self, key: String, value: String)
        ensures
            final(self)@ == old(self)@.insert(key@, value@),
    {
        let ghost before = self.entries@;
        self.entries.push((key, value));
        proof {
            assert(self.entries@.drop_last() =~= before);
        }
    }

    /// The value of `key`, where it is set.
    pub fn get(&self, key: &str) -> (r: Option<&String>)
        ensures
            match r {
                Some(v) => self@.contains_key(key@) && self@[key@] == v@,
                None => !self@.contains_key(key@),
            },
    {
        let wanted = chars_of(key);
        let r = self.get_chars(wanted.as_slice());
        r
    }

    /// The value of the variable whose name is `key`, where it is set.
    pub fn get_chars(&self, key: &[char]) -> (r: Option<&String>)
        ensures
            match r {
                Some(v) => self@.contains_key(key@) && self@[key@] == v@,
                None => !self@.contains_key(key@),
            },
    {
        let mut i: usize = self.entries.len();
        proof {
            assert(self.entries@.take(i as int) =~= self.entries@);
        }
        while i > 0
            invariant
                0 <= i <= self.entries.len(),
                self@.contains_key(key@) == bindings(self.entries@.take(i as int)).contains_key(
                    key@,
                ),
                self@.contains_key(key@) ==> self@[key@] == bindings(
                    self.entries@.take(i as int),
                )[key@],
            decreases i,
        {
            proof {
                assert(self.entries@.take(i as int).drop_last() =~= self.entries@.take(i - 1));
            }
            let name = chars_of(self.entries[i - 1].0.as_str());
            if same_chars(name.as_slice(), key) {
                return Some(&self.entries[i - 1].1);
            }
            i -= 1;
        }
        None
    }

    /// Whether `key` is set.
    pub fn contains_key(&self, key: &str) -> (r: bool)
        ensures
            r == self@.contains_key(key@),
    {
        self.get(key).is_some()
    }
}

/// A reference to a variable inside a port declaration.
pub enum EnvExpr {
    /// `${NAME}`
    Simple { name: String },
    /// `${NAME-default}`, or `${NAME:-default}` where `treat_empty` holds.
    Default { name: String, default: String, treat_empty: bool },
}

/// What an `EnvExpr` holds, as mathematical text.
pub enum EnvExprView {
    Simple { name: Seq<char> },
    Default { name: Seq<char>, default: Seq<char>, treat_empty: bool },
}

impl View for EnvExpr {
    type V = EnvExprView;

    open spec fn view(&self) -> EnvExprView {
        match self {
            EnvExpr::Simple { name } => EnvExprView::Simple { name: name@ },
            EnvExpr::Default { name, default, treat_empty } => EnvExprView::Default {
                name: name@,
                default: default@,
                treat_empty: *treat_empty,
            },
        }
    }
}

/// The least index at which `a` stands directly before `b` in `s`, or the
/// length of `s` where that happens nowhere.
pub open spec fn first_pair(s: Seq<char>, a: char, b: char) -> int
    decreases s.len(),
{
    if s.len() < 2 {
        s.len() as int
    } else if s[0] == a && s[1] == b {
        0
    } else {
        1 + first_pair(s.drop_first(), a, b)
    }
}

/// `first_pair` is the least index at which the pair stands.
pub proof fn lemma_first_pair(s: Seq<char>, a: char, b: char)
    ensures
        0 <= first_pair(s, a, b) <= s.len(),
        forall|j: int|
            0 <= j < first_pair(s, a, b) && j + 1 < s.len() ==> !(#[trigger] s[j] == a && s[j
                + 1] == b),
        first_pair(s, a, b) < s.len() ==> first_pair(s, a, b) + 1 < s.len() && s[first_pair(
            s,
            a,
            b,
        )] == a && s[first_pair(s, a, b) + 1] == b,
    decreases s.len(),
{
    if s.len() >= 2 && !(s[0] == a && s[1] == b) {
        let t = s.drop_first();
        lemma_first_pair(t, a, b);
        assert forall|j: int| 0 <= j < first_pair(s, a, b) && j + 1 < s.len() implies !(
        #[trigger] s[j] == a && s[j + 1] == b) by {
            if j > 0 {
                assert(s[j] == t[j - 1]);
                assert(s[j + 1] == t[j]);
            }
        }
        if first_pair(s, a, b) < s.len() {
            let k = first_pair(t, a, b);
            assert(s[k + 1] == t[k]);
            assert(s[k + 2] == t[k + 1]);
        }
    }
}

/// The expression that `input` writes, if it writes one: `${`, a non-empty
/// inside and `}`. The inside is split at its first `:-`, else at its first
/// `-`, into a name, which must not be empty, and a default; without either
/// it is a name alone.
pub open spec fn env_expr(input: Seq<char>) -> Option<EnvExprView> {
    if !(starts_with(input, seq!['$', '{']) && ends_with(input, seq!['}'])) {
        None
    } else {
        let inner = input.subrange(2, input.len() - 1);
        let colon = first_pair(inner, ':', '-');
        let hyphen = first_index(inner, '-');
        if inner.len() == 0 {
            None
        } else if colon < inner.len() {
            if colon == 0 {
                None
            } else {
                Some(
                    EnvExprView::Default {
                        name: inner.take(colon),
                        default: inner.skip(colon + 2),
                        treat_empty: true,
                    },
                )
            }
        } else if hyphen < inner.len() {
            if hyphen == 0 {
                None
            } else {
                Some(
                    EnvExprView::Default {
                        name: inner.take(hyphen),
                        default: inner.skip(hyphen + 1),
                        treat_empty: false,
                    },
                )
            }
        } else {
            Some(EnvExprView::Simple { name: inner })
        }
    }
}

/// The text an expression stands for in `env`. A plain reference to an unset
/// variable stands for nothing. A default replaces an unset variable, and
/// under `treat_empty` an empty one too.
pub open spec fn resolved(expr: EnvExprView, env: Map<Seq<char>, Seq<char>>) -> Option<
    Seq<char>,
> {
    match expr {
        EnvExprView::Simple { name } => if env.contains_key(name) {
            Some(env[name])
        } else {
            None
        },
        EnvExprView::Default { name, default, treat_empty } => if env.contains_key(name) {
            if treat_empty && env[name].len() == 0 {
                Some(default)
            } else {
                Some(env[name])
            }
        } else {
            Some(default)
        },
    }
}

/// The index at which `a` first stands directly before `b` in `v`, or the
/// length of `v`.
pub fn find_pair(v: &[char], a: char, b: char) -> (r: usize)
    ensures
        r == first_pair(v@, a, b),
        r <= v.len(),
{
    if v.len() < 2 {
        return v.len();
    }
    let mut i: usize = 0;
    proof {
        assert(v@.skip(0) =~= v@);
    }
    while i < v.len() - 1 && !(v[i] == a && v[i + 1] == b)
        invariant
            0 <= i <= v.len(),
            v.len() >= 2,
            first_pair(v@, a, b) == i + first_pair(v@.skip(i as int), a, b),
        decreases v.len() - i,
    {
        proof {
            assert(v@.skip(i as int).drop_first() =~= v@.skip(i + 1));
        }
        i += 1;
    }
    proof {
        lemma_first_pair(v@.skip(i as int), a, b);
    }
    if i < v.len() - 1 {
        i
    } else {
        v.len()
    }
}

/// Reads `input` as a reference to a variable.
pub fn parse_env_chars(input: &[char]) -> (r: Option<EnvExpr>)
    ensures
        match r {
            Some(e) => env_expr(input@) == Some(e@),
            None => env_expr(input@) is None,
        },
{
    let n = input.len();
    if n < 3 || input[0] != '$' || input[1] != '{' || input[n - 1] != '}' {
        proof {
            if starts_with(input@, seq!['$', '{']) && ends_with(input@, seq!['}']) {
                assert(input@.take(2)[0] == '$');
                assert(input@.take(2)[1] == '{');
                assert(input@.skip(n - 1)[0] == '}');
            }
        }
        return None;
    }
    proof {
        assert(input@.take(2) =~= seq!['$', '{']);
        assert(input@.skip(n - 1) =~= seq!['}']);
    }
    let inner = copy_range(input, 2, n - 1);
    if inner.len() == 0 {
        return None;
    }
    let colon = find_pair(inner.as_slice(), ':', '-');
    if colon < inner.len() {
        proof {
            lemma_first_pair(inner@, ':', '-');
        }
        if colon == 0 {
            return None;
        }
        let name = copy_range(inner.as_slice(), 0, colon);
        let default = copy_range(inner.as_slice(), colon + 2, inner.len());
        proof {
            assert(name@ =~= inner@.take(colon as int));
            assert(default@ =~= inner@.skip(colon + 2));
        }
        return Some(
            EnvExpr::Default {
                name: string_of(name.as_slice()),
                default: string_of(default.as_slice()),
                treat_empty: true,
            },
        );
    }
    let hyphen = find_char(inner.as_slice(), '-');
    if hyphen < inner.len() {
        if hyphen == 0 {
            return None;
        }
        let name = copy_range(inner.as_slice(), 0, hyphen);
        let default = copy_range(inner.as_slice(), hyphen + 1, inner.len());
        proof {
            assert(name@ =~= inner@.take(hyphen as int));
            assert(default@ =~= inner@.skip(hyphen + 1));
        }
        return Some(
            EnvExpr::Default {
                name: string_of(name.as_slice()),
                default: string_of(default.as_slice()),
                treat_empty: false,
            },
        );
    }
    Some(EnvExpr::Simple { name: string_of(inner.as_slice()) })
}

/// Reads `input` as a reference to a variable: `${NAME}`, `${NAME-default}`
/// or `${NAME:-default}`.
pub fn parse_env_expr(input: &str) -> (r: Option<EnvExpr>)
    ensures
        match r {
            Some(e) => env_expr(input@) == Some(e@),
            None => env_expr(input@) is None,
        },
{
    let chars = chars_of(input);
    parse_env_chars(chars.as_slice())
}

/// The text that `expr` stands for in `env`.
pub fn resolve_env_expr(expr: &EnvExpr, env: &Env) -> (r: Option<String>)
    ensures
        match r {
            Some(s) => resolved(expr@, env@) == Some(s@),
            None => resolved(expr@, env@) is None,
        },
{
    match expr {
        EnvExpr::Simple { name } => match env.get(name.as_str()) {
            Some(value) => Some(value.clone()),
            None => None,
        },
        EnvExpr::Default { name, default, treat_empty } => match env.get(name.as_str()) {
            Some(value) => {
                if *treat_empty && value.as_str().unicode_len() == 0 {
                    Some(default.clone())
                } else {
                    Some(value.clone())
                }
            },
            None => Some(default.clone()),
        },
    }
}

/// `value` without the quotes around it: a text of two characters or more
/// that begins and ends with the same quote, double or single, loses both.
pub open spec fn unquoted(value: Seq<char>) -> Seq<char> {
    if value.len() >= 2 && value[0] == value.last() && (value[0] == '"' || value[0] == '\'') {
        value.subrange(1, value.len() - 1)
    } else {
        value
    }
}

/// The binding that a line of a dotenv file makes, if it makes one.
///
/// Blank lines and lines that begin with `#` make none. A leading `export `
/// is skipped. The line is split at its first `=`; name and value are
/// trimmed, and the value loses the quotes around it. A line without `=`,
/// or with an empty name, makes no binding.
pub open spec fn dotenv_line(line: Seq<char>) -> Option<(Seq<char>, Seq<char>)> {
    let text = trimmed(line);
    let body = if starts_with(text, "export "@) {
        text.skip("export "@.len() as int)
    } else {
        text
    };
    let eq = first_index(body, '=');
    if text.len() == 0 || text[0] == '#' {
        None
    } else if 0 <= eq < body.len() {
        let key = trimmed(body.take(eq));
        if key.len() == 0 {
            None
        } else {
            Some((key, unquoted(trimmed(body.skip(eq + 1)))))
        }
    } else {
        None
    }
}

/// The bindings that the lines of a dotenv file make; a later line replaces
/// an earlier binding of the same name.
pub open spec fn dotenv_bindings(lines: Seq<Seq<char>>) -> Map<Seq<char>, Seq<char>>
    decreases lines.len(),
{
    if lines.len() == 0 {
        Map::empty()
    } else {
        let rest = dotenv_bindings(lines.drop_last());
        match dotenv_line(lines.last()) {
            Some(binding) => rest.insert(binding.0, binding.1),
            None => rest,
        }
    }
}

/// The environment that the text of a dotenv file stands for.
pub open spec fn dotenv(content: Seq<char>) -> Map<Seq<char>, Seq<char>> {
    dotenv_bindings(split(content, '\n'))
}

/// Takes the quotes around `value` away.
pub fn strip_quotes(value: &str) -> (r: &str)
    ensures
        r@ == unquoted(value@),
{
    let n = value.unicode_len();
    if n >= 2 {
        let first = value.get_char(0);
        let last = value.get_char(n - 1);
        if first == last && (first == '"' || first == '\'') {
            return value.substring_char(1, n - 1);
        }
    }
    value
}

/// The binding that a line of a dotenv file makes.
pub fn parse_dotenv_line(line: &[char]) -> (r: Option<(String, String)>)
    ensures
        match r {
            Some(binding) => dotenv_line(line@) == Some((binding.0@, binding.1@)),
            None => dotenv_line(line@) is None,
        },
{
    let text = trim_chars(line);
    if text.len() == 0 || text[0] == '#' {
        return None;
    }
    let keyword = chars_of("export ");
    let body = if has_prefix(text.as_slice(), keyword.as_slice()) {
        let rest = copy_range(text.as_slice(), keyword.len(), text.len());
        proof {
            assert(rest@ =~= text@.skip("export "@.len() as int));
        }
        rest
    } else {
        text
    };
    let eq = find_char(body.as_slice(), '=');
    if eq >= body.len() {
        return None;
    }
    let before = copy_range(body.as_slice(), 0, eq);
    let after = copy_range(body.as_slice(), eq + 1, body.len());
    proof {
        assert(before@ =~= body@.take(eq as int));
        assert(after@ =~= body@.skip(eq + 1));
    }
    let key = trim_chars(before.as_slice());
    if key.len() == 0 {
        return None;
    }
    let value = string_of(trim_chars(after.as_slice()).as_slice());
    let bare = strip_quotes(value.as_str());
    Some((string_of(key.as_slice()), String::from_str(bare)))
}

/// Reads the text of a dotenv file: one `NAME=value` a line, with comments,
/// `export` and quoted values understood.
pub fn parse_dotenv(content: &str) -> (r: Env)
    ensures
        r@ == dotenv(content@),
{
    let chars = chars_of(content);
    let lines = split_chars(chars.as_slice(), '\n');
    let mut env = Env::new();
    let mut i: usize = 0;
    while i < lines.len()
        invariant
            0 <= i <= lines.len(),
            env@ == dotenv_bindings(texts(lines@).take(i as int)),
        decreases lines.len() - i,
    {
        proof {
            assert(texts(lines@).take(i + 1).drop_last() =~= texts(lines@).take(i as int));
            assert(texts(lines@).take(i + 1).last() == lines@[i as int]@);
        }
        match parse_dotenv_line(lines[i].as_slice()) {
            Some((key, value)) => {
                env.insert(key, value);
            },
            None => {},
        }
        i += 1;
    }
    proof {
        assert(texts(lines@).take(lines.len() as int) =~= texts(lines@));
    }
    env
}

/// The bindings of two lists, one after the other, are those of the first
/// with those of the second laid over them.
pub proof fn lemma_bindings_append(first: Seq<(String, String)>, second: Seq<(String, String)>)
    ensures
        bindings(first + second) == bindings(first).union_prefer_right(bindings(second)),
    decreases second.len(),
{
    if second.len() == 0 {
        assert(first + second =~= first);
        assert(bindings(first).union_prefer_right(bindings(second)) =~= bindings(first));
    } else {
        lemma_bindings_append(first, second.drop_last());
        assert((first + second).drop_last() =~= first + second.drop_last());
        assert((first + second).last() == second.last());
        assert(bindings(first + second) =~= bindings(first).union_prefer_right(bindings(second)));
    }
}

/// The environment that ports are resolved in: the variables of the process
/// and, for every name that the process does not set, those of the dotenv
/// file.
pub fn merge_env(process: &Env, file: &Env) -> (r: Env)
    ensures
        r@ == file@.union_prefer_right(process@),
{
    let mut entries: Vec<(String, String)> = Vec::new();
    let mut i: usize = 0;
    while i < file.entries.len()
        invariant
            0 <= i <= file.entries.len(),
            entries@ =~= file.entries@.take(i as int),
        decreases file.entries.len() - i,
    {
        entries.push((file.entries[i].0.clone(), file.entries[i].1.clone()));
        i += 1;
    }
    let mut k: usize = 0;
    while k < process.entries.len()
        invariant
            0 <= k <= process.entries.len(),
            entries@ =~= file.entries@ + process.entries@.take(k as int),
        decreases process.entries.len() - k,
    {
        entries.push((process.entries[k].0.clone(), process.entries[k].1.clone()));
        k += 1;
    }
    proof {
        assert(process.entries@.take(process.entries.len() as int) =~= process.entries@);
        lemma_bindings_append(file.entries@, process.entries@);
    }
    Env { entries }
}

} // verus!
