//! Environments from `.env` / `.env.<name>` files and the store configuration they hold.
//! Reading directories and files is left to the caller; this module decides.

use vstd::prelude::*;
use crate::config::{Environment, LogFormat, StoreConfig, log_format_named};
use crate::error::AppError;
use crate::maps::StringMap;
use crate::model::{lemma_map_values_push, lemma_take_push};
use crate::text::{trim, lower, seq_lt, trim_str, to_ascii_lowercase, str_eq, str_lt, starts_with, chars_of,
    string_from_range, concat};

verus! {

/// What `Path::join` gives for the directory `root` and the name `name`: a path that depends on
/// both alone (their contents are opaque here).
pub uninterp spec fn joined_path(root: std::path::PathBuf, name: Seq<char>) -> std::path::PathBuf;

/// Joins a file name to a directory (`Path::join`); the result is named `joined_path`.
#[verifier::external_body]
fn join_path(root: &std::path::PathBuf, name: &str) -> (r: std::path::PathBuf)
    ensures
        r == joined_path(*root, name@),
{
    root.join(name)
}

/// What `char::to_uppercase` gives for `c`: its Unicode upper-case mapping, one or more
/// characters.
pub uninterp spec fn char_to_uppercase(c: char) -> Seq<char>;

/// The upper-case mapping of `c` (`char::to_uppercase`), named `char_to_uppercase`.
#[verifier::external_body]
fn uppercase_of(c: char) -> (r: String)
    ensures
        r@ == char_to_uppercase(c),
{
    c.to_uppercase().collect::<String>()
}

/// The environment that a file name stands for, by name, display name and file path.
pub struct EnvView {
    pub name: Seq<char>,
    pub display: Seq<char>,
    pub path: std::path::PathBuf,
}

pub open spec fn env_view(e: Environment) -> EnvView {
    EnvView { name: e.name@, display: e.display_name@, path: e.file_path }
}

pub open spec fn envs_view(v: Seq<Environment>) -> Seq<EnvView> {
    v.map_values(|e: Environment| env_view(e))
}

/// `rest` with its first character in upper case.
pub open spec fn display_name(rest: Seq<char>) -> Seq<char> {
    char_to_uppercase(rest[0]) + rest.drop_first()
}

/// `.env` is the default environment, `.env.<name>` (non-empty name) the environment `<name>`;
/// its file is `f` in the directory `root`.
pub open spec fn env_of_file(root: std::path::PathBuf, f: Seq<char>) -> Option<EnvView> {
    if f == ".env"@ {
        Some(EnvView { name: "default"@, display: "Default"@, path: joined_path(root, f) })
    } else if ".env."@.is_prefix_of(f) && f.len() > 5 {
        Some(EnvView { name: f.skip(5), display: display_name(f.skip(5)), path: joined_path(root, f) })
    } else {
        None
    }
}

/// The environments of the file names in the directory `root`, in order.
pub open spec fn envs_of_files(root: std::path::PathBuf, fs: Seq<Seq<char>>) -> Seq<EnvView>
    decreases fs.len(),
{
    if fs.len() == 0 {
        Seq::empty()
    } else {
        match env_of_file(root, fs.last()) {
            Some(e) => envs_of_files(root, fs.drop_last()).push(e),
            None => envs_of_files(root, fs.drop_last()),
        }
    }
}

/// `a` is listed before `b`: the default environment first, then by display name.
pub open spec fn env_before(a: EnvView, b: EnvView) -> bool {
    if a.name == "default"@ && b.name != "default"@ {
        true
    } else if b.name == "default"@ && a.name != "default"@ {
        false
    } else {
        seq_lt(a.display, b.display)
    }
}

/// `x` placed into `s` after every element that it does not come before (a stable insertion).
pub open spec fn insert_env(x: EnvView, s: Seq<EnvView>) -> Seq<EnvView>
    decreases s.len(),
{
    if s.len() == 0 {
        seq![x]
    } else if env_before(x, s.last()) {
        insert_env(x, s.drop_last()).push(s.last())
    } else {
        s.push(x)
    }
}

/// `s` in listing order; environments that tie keep their order (a stable sort).
pub open spec fn sort_envs(s: Seq<EnvView>) -> Seq<EnvView>
    decreases s.len(),
{
    if s.len() == 0 {
        s
    } else {
        insert_env(s.last(), sort_envs(s.drop_last()))
    }
}

fn env_before_exec(a: &Environment, b: &Environment) -> (r: bool)
    ensures
        r == env_before(env_view(*a), env_view(*b)),
{
    let ad = str_eq(a.name.as_str(), "default");
    let bd = str_eq(b.name.as_str(), "default");
    if ad && !bd {
        true
    } else if bd && !ad {
        false
    } else {
        str_lt(a.display_name.as_str(), b.display_name.as_str())
    }
}

fn insert_env_exec(v: &mut Vec<Environment>, x: Environment)
    ensures
        envs_view(final(v)@) == insert_env(env_view(x), envs_view(old(v)@)),
{
    let ghost s = envs_view(v@);
    let ghost xv = env_view(x);
    let mut j = v.len();
    assert(s.take(j as int) =~= s);
    while j > 0 && env_before_exec(&x, &v[j - 1])
        invariant
            j <= v.len(),
            s == envs_view(v@),
            xv == env_view(x),
            insert_env(xv, s) == insert_env(xv, s.take(j as int)) + s.skip(j as int),
        decreases j,
    {
        proof {
            let t = s.take(j as int);
            assert(t.last() == env_view(v@[j - 1]));
            assert(t.drop_last() =~= s.take(j - 1));
            assert(s.skip(j - 1) =~= seq![t.last()] + s.skip(j as int));
            assert(insert_env(xv, s.take(j - 1)).push(t.last()) + s.skip(j as int) =~= insert_env(xv, s.take(j - 1)) + s.skip(j - 1));
        }
        j = j - 1;
    }
    proof {
        let t = s.take(j as int);
        if j > 0 {
            assert(t.last() == env_view(v@[j - 1]));
        }
        assert(insert_env(xv, t) =~= t.push(xv));
    }
    v.insert(j, x);
    assert(envs_view(v@) =~= s.take(j as int).push(xv) + s.skip(j as int));
}

/// Environment and store-configuration loader for `.env` / `.env.<name>` files in `root`.
pub struct DotenvEnvironmentService {
    root: std::path::PathBuf,
}

impl DotenvEnvironmentService {
    pub fn new(root: impl Into<std::path::PathBuf>) -> Self {
        DotenvEnvironmentService { root: root.into() }
    }

    /// The directory the environment files are in.
    pub closed spec fn root_dir(self) -> std::path::PathBuf {
        self.root
    }

    /// The directory the environment files are in.
    pub fn root(&self) -> (r: &std::path::PathBuf)
        ensures
            *r == self.root_dir(),
    {
        &self.root
    }

    fn environment_of(&self, file_name: &str) -> (r: Option<Environment>)
        ensures
            match r {
                Some(e) => env_of_file(self.root_dir(), file_name@) == Some(env_view(e)),
                None => env_of_file(self.root_dir(), file_name@) is None,
            },
    {
        if str_eq(file_name, ".env") {
            return Some(Environment {
                name: "default".to_string(),
                display_name: "Default".to_string(),
                file_path: join_path(&self.root, file_name),
            });
        }
        if !starts_with(file_name, ".env.") {
            return None;
        }
        let v = chars_of(file_name);
        if v.len() <= 5 {
            return None;
        }
        let rest = string_from_range(&v, 5, v.len());
        let tail = string_from_range(&v, 6, v.len());
        let first = uppercase_of(v[5]);
        let display = concat(first.as_str(), tail.as_str());
        proof {
            assert(rest@ =~= file_name@.skip(5));
            assert(tail@ =~= rest@.drop_first());
            assert(rest@[0] == v@[5]);
        }
        Some(Environment { name: rest, display_name: display, file_path: join_path(&self.root, file_name) })
    }

    /// The environments that the file names stand for (`.env` is `default`, `.env.<name>` is
    /// `<name>`), the default first, then by display name; other names are skipped.
    pub fn detect_from_filenames(&self, filenames: &[String]) -> (r: Vec<Environment>)
        ensures
            envs_view(r@) == sort_envs(envs_of_files(self.root_dir(), filenames@.map_values(|x: String| x@))),
    {
        let ghost fs = filenames@.map_values(|x: String| x@);
        let mut envs: Vec<Environment> = Vec::new();
        let mut i: usize = 0;
        assert(fs.take(0) =~= Seq::<Seq<char>>::empty());
        assert(envs_view(envs@) =~= Seq::<EnvView>::empty());
        while i < filenames.len()
            invariant
                i <= filenames.len(),
                fs == filenames@.map_values(|x: String| x@),
                envs_view(envs@) == sort_envs(envs_of_files(self.root_dir(), fs.take(i as int))),
            decreases filenames.len() - i,
        {
            proof {
                lemma_take_push(fs, i as int);
                assert(fs.take(i + 1).drop_last() =~= fs.take(i as int));
                assert(fs[i as int] == filenames@[i as int]@);
            }
            match self.environment_of(filenames[i].as_str()) {
                Some(e) => {
                    proof {
                        let es = envs_of_files(self.root_dir(), fs.take(i as int));
                        assert(envs_of_files(self.root_dir(), fs.take(i + 1)) == es.push(env_view(e)));
                        assert(es.push(env_view(e)).drop_last() =~= es);
                    }
                    insert_env_exec(&mut envs, e);
                },
                None => {},
            }
            i = i + 1;
        }
        assert(fs.take(filenames.len() as int) =~= fs);
        envs
    }
}

pub open spec fn msg_missing_var(key: Seq<char>) -> Seq<char> {
    "missing required env var: "@ + key
}

/// A required variable: present and not blank.
pub open spec fn required_var(m: Map<Seq<char>, Seq<char>>, key: Seq<char>) -> Option<Seq<char>> {
    if m.contains_key(key) && trim(m[key]).len() > 0 {
        Some(m[key])
    } else {
        None
    }
}

/// A flag variable is set by `1`, `true`, `yes` or `on` (trimmed, any ASCII case).
pub open spec fn flag_var(m: Map<Seq<char>, Seq<char>>, key: Seq<char>) -> bool {
    m.contains_key(key) && {
        let v = lower(trim(m[key]));
        v == "1"@ || v == "true"@ || v == "yes"@ || v == "on"@
    }
}

/// The value of decimal digits.
pub open spec fn digits_value(s: Seq<char>) -> nat
    decreases s.len(),
{
    if s.len() == 0 {
        0
    } else {
        digits_value(s.drop_last()) * 10 + ((s.last() as int) - ('0' as int)) as nat
    }
}

pub open spec fn all_digits(s: Seq<char>) -> bool {
    forall|i: int| 0 <= i < s.len() ==> '0' <= #[trigger] s[i] <= '9'
}

/// What `str::parse::<u64>` gives: an optional `+`, then one or more decimal digits whose
/// value fits in a `u64`.
pub open spec fn u64_text(s: Seq<char>) -> Option<u64> {
    let d = if s.len() > 0 && s[0] == '+' { s.drop_first() } else { s };
    if d.len() > 0 && all_digits(d) && digits_value(d) <= u64::MAX {
        Some(digits_value(d) as u64)
    } else {
        None
    }
}

/// A number variable: present and, trimmed, a `u64`.
pub open spec fn number_var(m: Map<Seq<char>, Seq<char>>, key: Seq<char>) -> Option<u64> {
    if m.contains_key(key) {
        u64_text(trim(m[key]))
    } else {
        None
    }
}

/// Reads a `u64` as `str::parse` does (see `u64_text`).
pub fn parse_u64_text(s: &str) -> (r: Option<u64>)
    ensures
        r == u64_text(s@),
{
    let v = chars_of(s);
    let start: usize = if v.len() > 0 && v[0] == '+' { 1 } else { 0 };
    let ghost d = if s@.len() > 0 && s@[0] == '+' { s@.drop_first() } else { s@ };
    assert(d =~= v@.skip(start as int));
    if start >= v.len() {
        return None;
    }
    let mut value: u64 = 0;
    let mut i: usize = start;
    assert(v@.subrange(start as int, start as int) =~= Seq::<char>::empty());
    while i < v.len()
        invariant
            start <= i <= v.len(),
            v@ == s@,
            d == v@.skip(start as int),
            d == (if s@.len() > 0 && s@[0] == '+' { s@.drop_first() } else { s@ }),
            all_digits(v@.subrange(start as int, i as int)),
            value as nat == digits_value(v@.subrange(start as int, i as int)),
        decreases v.len() - i,
    {
        let c = v[i];
        proof {
            assert(v@.subrange(start as int, i + 1).drop_last() =~= v@.subrange(start as int, i as int));
        }
        if c < '0' || c > '9' {
            assert(d[i - start] == c);
            assert(!all_digits(d));
            return None;
        }
        let digit = (c as u32 - '0' as u32) as u64;
        let ghost next = digits_value(v@.subrange(start as int, i + 1));
        assert(next == value * 10 + digit);
        match value.checked_mul(10) {
            None => {
                proof {
                    assert(value * 10 > u64::MAX);
                    assert(next > u64::MAX);
                    lemma_digits_value_prefix_le(d, (i - start) + 1);
                    assert(v@.subrange(start as int, i + 1) =~= d.take((i - start) + 1));
                }
                return None;
            },
            Some(t) => match t.checked_add(digit) {
                None => {
                    proof {
                        lemma_digits_value_prefix_le(d, (i - start) + 1);
                        assert(v@.subrange(start as int, i + 1) =~= d.take((i - start) + 1));
                    }
                    return None;
                },
                Some(n) => {
                    value = n;
                },
            },
        }
        i = i + 1;
        assert(all_digits(v@.subrange(start as int, i as int))) by {
            assert forall|k: int| 0 <= k < i - start implies '0' <= #[trigger] v@.subrange(start as int, i as int)[k] <= '9' by {
                if k < i - 1 - start {
                    assert(v@.subrange(start as int, i as int)[k] == v@.subrange(start as int, i - 1)[k]);
                }
            }
        }
    }
    assert(v@.subrange(start as int, v.len() as int) =~= d);
    Some(value)
}

/// A prefix of digits is worth no more than the whole.
proof fn lemma_digits_value_prefix_le(s: Seq<char>, k: int)
    requires
        0 <= k <= s.len(),
    ensures
        digits_value(s.take(k)) <= digits_value(s) || !all_digits(s),
    decreases s.len() - k,
{
    if k < s.len() {
        lemma_digits_value_prefix_le(s, k + 1);
        assert(s.take(k + 1).drop_last() =~= s.take(k));
        if all_digits(s) {
            assert('0' <= s[k] <= '9');
        }
    } else {
        assert(s.take(k) =~= s);
    }
}


/// The store configuration that the variables `m` give for the environment `env_name`, or the
/// message for the first required variable that is missing or blank.
pub open spec fn config_from_vars(env_name: Seq<char>, m: Map<Seq<char>, Seq<char>>) -> Result<(Seq<char>, Seq<char>, LogFormat, bool, u64), Seq<char>> {
    match required_var(m, "MDS_CLI_SHOPIFY_SHOP_DOMAIN"@) {
        None => Err(msg_missing_var("MDS_CLI_SHOPIFY_SHOP_DOMAIN"@)),
        Some(domain) => match required_var(m, "MDS_CLI_SHOPIFY_ACCESS_TOKEN"@) {
            None => Err(msg_missing_var("MDS_CLI_SHOPIFY_ACCESS_TOKEN"@)),
            Some(token) => Ok((
                domain,
                token,
                if m.contains_key("MDS_LOG_FORMAT"@) { log_format_named(m["MDS_LOG_FORMAT"@]) } else { LogFormat::Pretty },
                flag_var(m, "MDSR_CLI_NO_UPDATE_CHECK"@),
                match number_var(m, "MDSR_CLI_UPDATE_CHECK_DAYS"@) {
                    Some(n) => n,
                    None => 7,
                },
            )),
        },
    }
}

impl DotenvEnvironmentService {
    /// A required variable: present and not blank, or a configuration error naming it.
    fn required(map: &StringMap, key: &str) -> (r: Result<String, AppError>)
        ensures
            match required_var(map@, key@) {
                Some(v) => r matches Ok(s) && s@ == v,
                None => r matches Err(AppError::Config(m)) && m@ == msg_missing_var(key@),
            },
    {
        match map.get(key) {
            Some(v) => {
                let t = trim_str(v.as_str());
                if t.as_str().is_empty() {
                    Err(AppError::Config(concat("missing required env var: ", key)))
                } else {
                    Ok(v.clone())
                }
            },
            None => Err(AppError::Config(concat("missing required env var: ", key))),
        }
    }

    /// Whether a flag variable is set (see `flag_var`).
    fn parse_bool(map: &StringMap, key: &str) -> (r: bool)
        ensures
            r == flag_var(map@, key@),
    {
        match map.get(key) {
            Some(v) => {
                let t = trim_str(v.as_str());
                let l = to_ascii_lowercase(t.as_str());
                let l = l.as_str();
                str_eq(l, "1") || str_eq(l, "true") || str_eq(l, "yes") || str_eq(l, "on")
            },
            None => false,
        }
    }

    /// A number variable (see `number_var`).
    fn parse_u64(map: &StringMap, key: &str) -> (r: Option<u64>)
        ensures
            r == number_var(map@, key@),
    {
        match map.get(key) {
            Some(v) => {
                let t = trim_str(v.as_str());
                parse_u64_text(t.as_str())
            },
            None => None,
        }
    }

    /// The store configuration of `env` from the variables `vars` (see `config_from_vars`):
    /// shop domain and access token are required; the log format defaults to pretty, the
    /// update check to enabled every 7 days.
    pub fn store_config_from_vars(env: &Environment, vars: &StringMap) -> (r: Result<StoreConfig, AppError>)
        ensures
            match config_from_vars(env.name@, vars@) {
                Ok(c) => r matches Ok(sc) && sc.env_name@ == env.name@ && sc.shop_domain@ == c.0 && sc.access_token@ == c.1
                    && sc.log_format == c.2 && sc.disable_update_check == c.3 && sc.update_check_days == c.4,
                Err(m) => r matches Err(AppError::Config(s)) && s@ == m,
            },
    {
        let shop_domain = Self::required(vars, "MDS_CLI_SHOPIFY_SHOP_DOMAIN")?;
        let access_token = Self::required(vars, "MDS_CLI_SHOPIFY_ACCESS_TOKEN")?;
        let log_format = match vars.get("MDS_LOG_FORMAT") {
            Some(s) => LogFormat::from_str(s.as_str()),
            None => LogFormat::Pretty,
        };
        let update_check_days = match Self::parse_u64(vars, "MDSR_CLI_UPDATE_CHECK_DAYS") {
            Some(n) => n,
            None => 7,
        };
        Ok(StoreConfig {
            env_name: env.name.clone(),
            shop_domain,
            access_token,
            log_format,
            disable_update_check: Self::parse_bool(vars, "MDSR_CLI_NO_UPDATE_CHECK"),
            update_check_days,
        })
    }

    /// The environments of the file names, or an error when there is none.
    pub fn detected_environments(&self, filenames: &[String]) -> (r: Result<Vec<Environment>, AppError>)
        ensures
            sort_envs(envs_of_files(self.root_dir(), filenames@.map_values(|x: String| x@))).len() == 0 ==> (r matches Err(AppError::Config(m))
                && m@ == "no environment files found (.env or .env.<name>)"@),
            sort_envs(envs_of_files(self.root_dir(), filenames@.map_values(|x: String| x@))).len() > 0 ==> (r matches Ok(v)
                && envs_view(v@) == sort_envs(envs_of_files(self.root_dir(), filenames@.map_values(|x: String| x@)))),
    {
        let envs = self.detect_from_filenames(filenames);
        if envs.len() == 0 {
            return Err(AppError::Config("no environment files found (.env or .env.<name>)".to_string()));
        }
        Ok(envs)
    }
}


/// No environment is listed after one that it comes before.
pub open spec fn listed(s: Seq<EnvView>) -> bool {
    forall|i: int, j: int| 0 <= i < j < s.len() ==> !env_before(#[trigger] s[j], #[trigger] s[i])
}

proof fn lemma_display_order(a: Seq<char>, b: Seq<char>, c: Seq<char>)
    ensures
        !seq_lt(a, b) && !seq_lt(b, c) ==> !seq_lt(a, c),
        seq_lt(a, b) ==> !seq_lt(b, a),
{
    crate::text::lemma_seq_lt_asymmetric(a, b);
    crate::text::lemma_seq_lt_total(a, b);
    crate::text::lemma_seq_lt_total(b, c);
    crate::text::lemma_seq_lt_irreflexive(a);
    if !seq_lt(a, b) && !seq_lt(b, c) && seq_lt(a, c) {
        if a != b && b != c {
            crate::text::lemma_seq_lt_transitive(c, b, a);
            crate::text::lemma_seq_lt_asymmetric(a, c);
        } else if a == b {
            crate::text::lemma_seq_lt_asymmetric(b, c);
        } else {
            crate::text::lemma_seq_lt_asymmetric(a, b);
        }
    }
}

proof fn lemma_not_before_transitive(a: EnvView, b: EnvView, c: EnvView)
    requires
        !env_before(a, b),
        !env_before(b, c),
    ensures
        !env_before(a, c),
{
    lemma_display_order(a.display, b.display, c.display);
}

proof fn lemma_before_asymmetric(a: EnvView, b: EnvView)
    ensures
        env_before(a, b) ==> !env_before(b, a),
{
    lemma_display_order(a.display, b.display, a.display);
}

proof fn lemma_insert_env_member(x: EnvView, s: Seq<EnvView>, i: int)
    requires
        0 <= i < insert_env(x, s).len(),
    ensures
        insert_env(x, s)[i] == x || exists|j: int| 0 <= j < s.len() && s[j] == insert_env(x, s)[i],
    decreases s.len(),
{
    if s.len() > 0 && env_before(x, s.last()) {
        let t = s.drop_last();
        let r = insert_env(x, t);
        if i < r.len() {
            lemma_insert_env_member(x, t, i);
            if r[i] != x {
                let j = choose|j: int| 0 <= j < t.len() && t[j] == r[i];
                assert(s[j] == r[i]);
            }
        } else {
            assert(s[s.len() - 1] == insert_env(x, s)[i]);
        }
    } else if s.len() > 0 {
        if i < s.len() {
            assert(s[i] == insert_env(x, s)[i]);
        }
    }
}

proof fn lemma_insert_env_props(x: EnvView, s: Seq<EnvView>)
    requires
        listed(s),
    ensures
        listed(insert_env(x, s)),
        insert_env(x, s).to_multiset() == s.to_multiset().insert(x),
    decreases s.len(),
{
    broadcast use vstd::seq_lib::group_to_multiset_ensures;
    if s.len() == 0 {
        assert(seq![x] =~= Seq::<EnvView>::empty().push(x));
        assert forall|i: int, j: int| 0 <= i < j < 1 implies !env_before(#[trigger] seq![x][j], #[trigger] seq![x][i]) by {}
    } else if env_before(x, s.last()) {
        let t = s.drop_last();
        assert(listed(t)) by {
            assert forall|i: int, j: int| 0 <= i < j < t.len() implies !env_before(#[trigger] t[j], #[trigger] t[i]) by {
                assert(t[i] == s[i] && t[j] == s[j]);
            }
        }
        lemma_insert_env_props(x, t);
        let r = insert_env(x, t);
        assert(s =~= t.push(s.last()));
        assert forall|i: int| 0 <= i < r.len() implies !env_before(s.last(), #[trigger] r[i]) by {
            lemma_insert_env_member(x, t, i);
            if r[i] == x {
                lemma_before_asymmetric(x, s.last());
            } else {
                let j = choose|j: int| 0 <= j < t.len() && t[j] == r[i];
                assert(!env_before(s[s.len() - 1], s[j]));
            }
        }
        let e = r.push(s.last());
        assert forall|i: int, j: int| 0 <= i < j < e.len() implies !env_before(#[trigger] e[j], #[trigger] e[i]) by {
            if j == r.len() {
                assert(e[j] == s.last());
                assert(e[i] == r[i]);
            } else {
                assert(e[i] == r[i]);
                assert(e[j] == r[j]);
            }
        }
    } else {
        let e = s.push(x);
        assert forall|i: int, j: int| 0 <= i < j < e.len() implies !env_before(#[trigger] e[j], #[trigger] e[i]) by {
            if j == s.len() {
                assert(e[j] == x);
                assert(e[i] == s[i]);
                if i < s.len() - 1 {
                    assert(!env_before(s[s.len() - 1], s[i]));
                    lemma_not_before_transitive(x, s.last(), s[i]);
                }
            } else {
                assert(e[i] == s[i]);
                assert(e[j] == s[j]);
            }
        }
    }
}

/// The environments are listed default first, then by display name, and none is lost or
/// added: the listing is a rearrangement of what the file names stand for.
pub proof fn lemma_sort_envs_listed(s: Seq<EnvView>)
    ensures
        listed(sort_envs(s)),
        sort_envs(s).to_multiset() == s.to_multiset(),
    decreases s.len(),
{
    broadcast use vstd::seq_lib::group_to_multiset_ensures;
    if s.len() == 0 {
        assert forall|i: int, j: int| 0 <= i < j < s.len() implies !env_before(#[trigger] s[j], #[trigger] s[i]) by {}
    } else {
        lemma_sort_envs_listed(s.drop_last());
        lemma_insert_env_props(s.last(), sort_envs(s.drop_last()));
        assert(s =~= s.drop_last().push(s.last()));
    }
}
} // verus!
