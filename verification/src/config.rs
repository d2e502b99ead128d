//! The configuration: which Bitwarden secret goes to which file, and how the
//! paths are completed from environment variables.

use vstd::prelude::*;
use vstd::string::*;
use indexmap::IndexMap;
use std::collections::HashMap;
use crate::text::{contains_str, seq_contains};

verus! {

/// `indexmap::IndexMap`, opaque to Verus: what it holds is read through
/// `secret_entries` and the wrappers below.
#[verifier::external_type_specification]
#[verifier::external_body]
#[verifier::reject_recursive_types(K)]
#[verifier::reject_recursive_types(V)]
#[verifier::reject_recursive_types(S)]
pub struct ExIndexMap<K, V, S>(IndexMap<K, V, S>);

/// `minijinja::Error`, carried unchanged as the cause of a failed template.
#[verifier::external_type_specification]
#[verifier::external_body]
pub struct ExTemplateError(minijinja::Error);

/// The default number of secrets fetched at once.
pub fn default_max_threads() -> (r: usize)
    ensures
        r == 3,
{
    3
}

/// The default number of attempts for one `bws` call.
pub fn default_max_retries() -> (r: u32)
    ensures
        r == 3,
{
    3
}

/// The view of a secret mapping.
pub struct SecretView {
    pub name: Seq<char>,
    pub id: Seq<char>,
    pub path: Seq<char>,
}

/// One secret of the configuration: its name (the key it is configured
/// under), its Bitwarden id, and the file it is written to.
pub struct SecretMapping {
    pub name: String,
    pub id: String,
    pub path: String,
}

impl View for SecretMapping {
    type V = SecretView;

    open spec fn view(&self) -> SecretView {
        SecretView { name: self.name@, id: self.id@, path: self.path@ }
    }
}

impl Clone for SecretMapping {
    fn clone(&self) -> (r: Self)
        ensures
            r@ == self@,
    {
        SecretMapping { name: self.name.clone(), id: self.id.clone(), path: self.path.clone() }
    }
}

/// What an `IndexMap` of secrets holds, in its order: each key with its secret.
pub uninterp spec fn secret_entries(m: IndexMap<String, SecretMapping>) -> Seq<(Seq<char>, SecretView)>;

/// `IndexMap::len`: the number of entries.
#[verifier::external_body]
fn secrets_len(m: &IndexMap<String, SecretMapping>) -> (r: usize)
    ensures
        r == secret_entries(*m).len(),
{
    m.len()
}

/// `IndexMap::get_index`: the entry at position `i`, if there is one.
#[verifier::external_body]
fn secret_at(m: &IndexMap<String, SecretMapping>, i: usize) -> (r: Option<(&String, &SecretMapping)>)
    ensures
        r is Some <==> i < secret_entries(*m).len(),
        r matches Some(e) ==> e.0@ == secret_entries(*m)[i as int].0 && e.1@ == secret_entries(
            *m,
        )[i as int].1,
{
    m.get_index(i)
}

/// `IndexMut<usize>` of `IndexMap`: replaces the value at position `i`,
/// keeping its key and its position.
#[verifier::external_body]
fn replace_secret_at(m: &mut IndexMap<String, SecretMapping>, i: usize, value: SecretMapping)
    requires
        i < secret_entries(*old(m)).len(),
    ensures
        secret_entries(*final(m)) == secret_entries(*old(m)).update(
            i as int,
            (secret_entries(*old(m))[i as int].0, value@),
        ),
{
    m[i] = value;
}

/// `IndexMap::get`: the value stored under `key`, if any.
#[verifier::external_body]
fn secret_named<'a>(m: &'a IndexMap<String, SecretMapping>, key: &str) -> (r: Option<&'a SecretMapping>)
    ensures
        r is None <==> forall|j: int|
            0 <= j < secret_entries(*m).len() ==> #[trigger] secret_entries(*m)[j].0 != key@,
        r matches Some(v) ==> exists|j: int|
            0 <= j < secret_entries(*m).len() && #[trigger] secret_entries(*m)[j].0 == key@
                && secret_entries(*m)[j].1 == v@,
{
    m.get(key)
}

/// What rendering `template` with the environment variables `env` (available
/// to the template as `env`) produces; `None` when rendering fails.
pub uninterp spec fn rendered_template(template: Seq<char>, env: Map<Seq<char>, Seq<char>>) -> Option<Seq<char>>;

/// `minijinja::Environment::add_template` of `template` under the name `_`
/// in a fresh default environment, then `get_template("_")` and
/// `Template::render` with the context `{ env: env_vars }`. Whether it
/// succeeds, and what it produces, is named by `rendered_template` of the
/// template and the variables.
#[verifier::external_body]
fn render_template(template: &str, env_vars: &HashMap<String, String>) -> (r: Result<String, minijinja::Error>)
    ensures
        r is Ok <==> rendered_template(template@, env_vars.deep_view()) is Some,
        r matches Ok(s) ==> rendered_template(template@, env_vars.deep_view()) == Some(s@),
{
    let ctx = std::collections::BTreeMap::from([("env", env_vars)]);
    let mut env = minijinja::Environment::new();
    env.add_template("_", template)?;
    let rendered = env.get_template("_")?.render(ctx);
    rendered
}

/// What a configured path becomes: unchanged without a `{{` marker,
/// otherwise the rendered template.
pub open spec fn expanded_path(path: Seq<char>, env: Map<Seq<char>, Seq<char>>) -> Option<Seq<char>> {
    if !seq_contains(path, "{{"@) {
        Some(path)
    } else {
        rendered_template(path, env)
    }
}

/// A path is rendered exactly when `{{` occurs in it anywhere, whatever
/// follows the braces (`{{env.HOME}}` as much as `{{ env.HOME }}`); a path
/// without `{{` is kept as it is.
pub proof fn lemma_marker_decides_rendering(path: Seq<char>, env: Map<Seq<char>, Seq<char>>)
    ensures
        (exists|i: int| #![trigger path[i]] 0 <= i && i + 1 < path.len() && path[i] == '{' && path[i + 1] == '{')
            ==> expanded_path(path, env) == rendered_template(path, env),
        (forall|i: int| #![trigger path[i]] 0 <= i && i + 1 < path.len() ==> !(path[i] == '{' && path[i + 1] == '{'))
            ==> expanded_path(path, env) == Some(path),
{
    reveal_strlit("{{");
    if exists|i: int| #![trigger path[i]] 0 <= i && i + 1 < path.len() && path[i] == '{' && path[i + 1] == '{' {
        let i = choose|i: int| #![trigger path[i]] 0 <= i && i + 1 < path.len() && path[i] == '{' && path[i + 1] == '{';
        assert(path.subrange(i, i + 2) =~= "{{"@);
    }
    if seq_contains(path, "{{"@) {
        let i = choose|i: int| 0 <= i && i + 2 <= path.len() && #[trigger] path.subrange(i, i + 2) == "{{"@;
        assert(path.subrange(i, i + 2)[0] == path[i]);
        assert(path.subrange(i, i + 2)[1] == path[i + 1]);
    }
}

/// Expands the environment-variable template in a configured path.
pub fn expand_template(template: &str, env_vars: &HashMap<String, String>) -> (r: Result<String, minijinja::Error>)
    ensures
        r is Ok <==> expanded_path(template@, env_vars.deep_view()) is Some,
        r matches Ok(s) ==> expanded_path(template@, env_vars.deep_view()) == Some(s@),
{
    if !contains_str(template, "{{") {
        return Ok(String::from_str(template));
    }
    render_template(template, env_vars)
}

/// The views of a list of secrets.
pub open spec fn secrets_view(v: Seq<SecretMapping>) -> Seq<SecretView> {
    v.map_values(|s: SecretMapping| s@)
}

/// The views of a list of strings.
pub open spec fn strings_view(v: Seq<String>) -> Seq<Seq<char>> {
    v.map_values(|s: String| s@)
}

/// An entry whose secret takes its name from the entry's key.
pub open spec fn named_entry(e: (Seq<char>, SecretView)) -> (Seq<char>, SecretView) {
    (e.0, SecretView { name: e.0, id: e.1.id, path: e.1.path })
}

/// An entry whose path has been expanded.
pub open spec fn expanded_entry(e: (Seq<char>, SecretView), env: Map<Seq<char>, Seq<char>>) -> (
    Seq<char>,
    SecretView,
) {
    (e.0, SecretView { name: e.1.name, id: e.1.id, path: expanded_path(e.1.path, env).unwrap() })
}

/// The entries with the paths of the first `i` expanded.
pub open spec fn expanded_upto(
    es: Seq<(Seq<char>, SecretView)>,
    env: Map<Seq<char>, Seq<char>>,
    i: int,
) -> Seq<(Seq<char>, SecretView)> {
    Seq::new(es.len(), |k: int| if k < i { expanded_entry(es[k], env) } else { es[k] })
}

/// Whether the path of entry `k` expands.
pub open spec fn path_expands(
    es: Seq<(Seq<char>, SecretView)>,
    env: Map<Seq<char>, Seq<char>>,
    k: int,
) -> bool {
    expanded_path(es[k].1.path, env) is Some
}

/// `j` is the first entry whose path fails to expand.
pub open spec fn first_failure(
    es: Seq<(Seq<char>, SecretView)>,
    env: Map<Seq<char>, Seq<char>>,
    j: int,
) -> bool {
    &&& 0 <= j < es.len()
    &&& !path_expands(es, env, j)
    &&& forall|k: int| 0 <= k < j ==> path_expands(es, env, k)
}

/// Why the configuration could not be completed.
#[derive(Debug)]
pub enum ConfigError {
    /// The path of secret `name` is a template that failed to render.
    Template { name: String, path: String, source: minijinja::Error },
}

/// Why `push` could not select what to push.
#[derive(Debug)]
pub enum SelectError {
    /// No secret is configured under `name`; `available` lists the names.
    SecretNotFound { name: String, available: Vec<String> },
}

/// The tool's configuration, as read from `.vault-sync.toml`.
pub struct Config {
    pub max_threads: usize,
    pub max_retries: u32,
    pub secrets: IndexMap<String, SecretMapping>,
}

impl Config {
    /// Gives every secret the name it is configured under.
    fn assign_names(&mut self)
        ensures
            final(self).max_threads == old(self).max_threads,
            final(self).max_retries == old(self).max_retries,
            secret_entries(final(self).secrets) == secret_entries(old(self).secrets).map_values(
                |e: (Seq<char>, SecretView)| named_entry(e),
            ),
    {
        let ghost es = secret_entries(self.secrets);
        let n = secrets_len(&self.secrets);
        let mut i: usize = 0;
        while i < n
            invariant
                n == es.len(),
                i <= n,
                self.max_threads == old(self).max_threads,
                self.max_retries == old(self).max_retries,
                es == secret_entries(old(self).secrets),
                secret_entries(self.secrets) == Seq::new(
                    es.len(),
                    |k: int| if k < i { named_entry(es[k]) } else { es[k] },
                ),
            decreases n - i,
        {
            let named = match secret_at(&self.secrets, i) {
                Some((key, secret)) => SecretMapping {
                    name: key.clone(),
                    id: secret.id.clone(),
                    path: secret.path.clone(),
                },
                None => {
                    return ;
                },
            };
            replace_secret_at(&mut self.secrets, i, named);
            i = i + 1;
            assert(secret_entries(self.secrets) =~= Seq::new(
                es.len(),
                |k: int| if k < i { named_entry(es[k]) } else { es[k] },
            ));
        }
        assert(secret_entries(self.secrets) =~= es.map_values(
            |e: (Seq<char>, SecretView)| named_entry(e),
        ));
    }

    /// Expands the template in every secret's path, in order, stopping at
    /// the first that fails.
    pub fn expand_templates(&mut self, env_vars: &HashMap<String, String>) -> (r: Result<(), ConfigError>)
        ensures
            final(self).max_threads == old(self).max_threads,
            final(self).max_retries == old(self).max_retries,
            r is Ok <==> forall|k: int|
                0 <= k < secret_entries(old(self).secrets).len() ==> path_expands(
                    secret_entries(old(self).secrets),
                    env_vars.deep_view(),
                    k,
                ),
            r is Ok ==> secret_entries(final(self).secrets) == expanded_upto(
                secret_entries(old(self).secrets),
                env_vars.deep_view(),
                secret_entries(old(self).secrets).len() as int,
            ),
            r matches Err(ConfigError::Template { name, path, .. }) ==> exists|j: int|
                #[trigger] first_failure(secret_entries(old(self).secrets), env_vars.deep_view(), j)
                    && name@ == secret_entries(old(self).secrets)[j].0 && path@ == secret_entries(
                    old(self).secrets,
                )[j].1.path && secret_entries(final(self).secrets) == expanded_upto(
                    secret_entries(old(self).secrets),
                    env_vars.deep_view(),
                    j,
                ),
    {
        let ghost es = secret_entries(self.secrets);
        let ghost env = env_vars.deep_view();
        let n = secrets_len(&self.secrets);
        let mut i: usize = 0;
        assert(es =~= expanded_upto(es, env, 0));
        while i < n
            invariant
                n == es.len(),
                i <= n,
                env == env_vars.deep_view(),
                self.max_threads == old(self).max_threads,
                self.max_retries == old(self).max_retries,
                es == secret_entries(old(self).secrets),
                secret_entries(self.secrets) == expanded_upto(es, env, i as int),
                forall|k: int| 0 <= k < i ==> path_expands(es, env, k),
            decreases n - i,
        {
            let (updated, failed) = match secret_at(&self.secrets, i) {
                Some((key, secret)) => match expand_template(secret.path.as_str(), env_vars) {
                    Ok(p) => (
                        Some(
                            SecretMapping {
                                name: secret.name.clone(),
                                id: secret.id.clone(),
                                path: p,
                            },
                        ),
                        None,
                    ),
                    Err(e) => (
                        None,
                        Some(
                            ConfigError::Template {
                                name: key.clone(),
                                path: secret.path.clone(),
                                source: e,
                            },
                        ),
                    ),
                },
                None => (None, None),
            };
            match failed {
                Some(err) => {
                    assert(first_failure(es, env, i as int));
                    return Err(err);
                },
                None => {},
            }
            match updated {
                Some(s) => replace_secret_at(&mut self.secrets, i, s),
                None => {
                    return Ok(());
                },
            }
            i = i + 1;
            assert(secret_entries(self.secrets) =~= expanded_upto(es, env, i as int));
        }
        Ok(())
    }

    /// Completes a configuration as parsed from `.vault-sync.toml`: every
    /// secret is named after its key, then every path is expanded with the
    /// environment variables `env_vars`.
    pub fn load(self, env_vars: &HashMap<String, String>) -> (r: Result<Config, ConfigError>)
        ensures
            r is Ok <==> forall|k: int|
                0 <= k < secret_entries(self.secrets).len() ==> path_expands(
                    secret_entries(self.secrets),
                    env_vars.deep_view(),
                    k,
                ),
            r matches Ok(c) ==> {
                &&& c.max_threads == self.max_threads
                &&& c.max_retries == self.max_retries
                &&& secret_entries(c.secrets).len() == secret_entries(self.secrets).len()
                &&& forall|k: int|
                    0 <= k < secret_entries(self.secrets).len() ==> #[trigger] secret_entries(
                        c.secrets,
                    )[k] == (
                        secret_entries(self.secrets)[k].0,
                        SecretView {
                            name: secret_entries(self.secrets)[k].0,
                            id: secret_entries(self.secrets)[k].1.id,
                            path: expanded_path(
                                secret_entries(self.secrets)[k].1.path,
                                env_vars.deep_view(),
                            ).unwrap(),
                        },
                    )
            },
            r matches Err(ConfigError::Template { name, path, .. }) ==> exists|j: int|
                #[trigger] first_failure(secret_entries(self.secrets), env_vars.deep_view(), j)
                    && name@ == secret_entries(self.secrets)[j].0 && path@ == secret_entries(
                    self.secrets,
                )[j].1.path,
    {
        let ghost es = secret_entries(self.secrets);
        let mut config = self;
        config.assign_names();
        let ghost named = secret_entries(config.secrets);
        assert forall|k: int| 0 <= k < es.len() implies path_expands(es, env_vars.deep_view(), k)
            == path_expands(named, env_vars.deep_view(), k) by {
            assert(named[k] == named_entry(es[k]));
        }
        match config.expand_templates(env_vars) {
            Ok(()) => Ok(config),
            Err(e) => {
                assert forall|j: int| #[trigger]
                    first_failure(named, env_vars.deep_view(), j) implies first_failure(
                    es,
                    env_vars.deep_view(),
                    j,
                ) by {}
                Err(e)
            },
        }
    }

    /// The configured secrets, in their configured order.
    pub fn secret_list(&self) -> (r: Vec<SecretMapping>)
        ensures
            secrets_view(r@) == secret_entries(self.secrets).map_values(
                |e: (Seq<char>, SecretView)| e.1,
            ),
    {
        let ghost es = secret_entries(self.secrets);
        let n = secrets_len(&self.secrets);
        let mut out: Vec<SecretMapping> = Vec::new();
        let mut i: usize = 0;
        while i < n
            invariant
                n == es.len(),
                i <= n,
                es == secret_entries(self.secrets),
                secrets_view(out@) == es.take(i as int).map_values(
                    |e: (Seq<char>, SecretView)| e.1,
                ),
            decreases n - i,
        {
            let ghost prev = out@;
            match secret_at(&self.secrets, i) {
                Some((_, secret)) => {
                    let c = secret.clone();
                    out.push(c);
                    assert(secrets_view(out@) =~= secrets_view(prev).push(es[i as int].1));
                },
                None => {
                    return out;
                },
            }
            assert(es.take(i + 1) =~= es.take(i as int).push(es[i as int]));
            i = i + 1;
            assert(secrets_view(out@) =~= es.take(i as int).map_values(
                |e: (Seq<char>, SecretView)| e.1,
            ));
        }
        assert(es.take(n as int) =~= es);
        out
    }

    /// The names of the configured secrets, in their configured order.
    pub fn secret_names(&self) -> (r: Vec<String>)
        ensures
            strings_view(r@) == secret_entries(self.secrets).map_values(
                |e: (Seq<char>, SecretView)| e.0,
            ),
    {
        let ghost es = secret_entries(self.secrets);
        let n = secrets_len(&self.secrets);
        let mut out: Vec<String> = Vec::new();
        let mut i: usize = 0;
        while i < n
            invariant
                n == es.len(),
                i <= n,
                es == secret_entries(self.secrets),
                strings_view(out@) == es.take(i as int).map_values(
                    |e: (Seq<char>, SecretView)| e.0,
                ),
            decreases n - i,
        {
            let ghost prev = out@;
            match secret_at(&self.secrets, i) {
                Some((key, _)) => {
                    let c = key.clone();
                    out.push(c);
                    assert(strings_view(out@) =~= strings_view(prev).push(es[i as int].0));
                },
                None => {
                    return out;
                },
            }
            assert(es.take(i + 1) =~= es.take(i as int).push(es[i as int]));
            i = i + 1;
            assert(strings_view(out@) =~= es.take(i as int).map_values(
                |e: (Seq<char>, SecretView)| e.0,
            ));
        }
        assert(es.take(n as int) =~= es);
        out
    }

    /// The secrets that `push` works on: the one configured under `target`,
    /// or all of them, in order, when there is no target.
    pub fn select_secrets(&self, target: Option<&str>) -> (r: Result<Vec<SecretMapping>, SelectError>)
        ensures
            match target {
                None => r matches Ok(v) && secrets_view(v@) == secret_entries(
                    self.secrets,
                ).map_values(|e: (Seq<char>, SecretView)| e.1),
                Some(name) => if exists|j: int|
                    0 <= j < secret_entries(self.secrets).len() && #[trigger] secret_entries(
                        self.secrets,
                    )[j].0 == name@ {
                    r matches Ok(v) && v@.len() == 1 && exists|j: int|
                        0 <= j < secret_entries(self.secrets).len() && #[trigger] secret_entries(
                            self.secrets,
                        )[j].0 == name@ && secret_entries(self.secrets)[j].1 == v@[0]@
                } else {
                    r matches Err(SelectError::SecretNotFound { name: n, available }) && n@
                        == name@ && strings_view(available@) == secret_entries(
                        self.secrets,
                    ).map_values(|e: (Seq<char>, SecretView)| e.0)
                },
            },
    {
        match target {
            None => Ok(self.secret_list()),
            Some(name) => match secret_named(&self.secrets, name) {
                Some(secret) => {
                    let mut v: Vec<SecretMapping> = Vec::new();
                    v.push(secret.clone());
                    Ok(v)
                },
                None => Err(
                    SelectError::SecretNotFound {
                        name: String::from_str(name),
                        available: self.secret_names(),
                    },
                ),
            },
        }
    }
}

} // verus!
