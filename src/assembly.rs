//! The assembly pipeline: each declared file is named, rewritten by its
//! replacements in order, optionally renamed, and stored; and the lookup that
//! the server performs on the result.
use vstd::prelude::*;
use crate::source::{location_name, source_name, Location, SourceError};
use crate::table::StringMap;
use crate::template::{env_view, expand, expanded};
use crate::text::{chars_of, replace_all, replaced, string_of};

verus! {

/// A literal find/replace rule; `to` is expanded as a template first.
#[derive(Clone, Debug)]
pub struct Replacement {
    pub from: String,
    pub to: String,
}

/// One served file: where it comes from, an optional name that overrides the
/// default one, and its replacements in order.
#[derive(Clone, Debug)]
pub struct FileDeclaration {
    pub location: Location,
    pub rename: Option<String>,
    pub replacements: Vec<Replacement>,
}

/// The variables and the declared files, in order.
#[derive(Clone, Debug)]
pub struct Configuration {
    pub vars: StringMap,
    pub files: Vec<FileDeclaration>,
}

/// The `(from, to)` pairs of a list of replacements.
pub open spec fn rules_of(reps: Seq<Replacement>) -> Seq<(Seq<char>, Seq<char>)> {
    reps.map_values(|r: Replacement| (r.from@, r.to@))
}

/// The content after applying the rules in order: each rule's `to` is
/// expanded, then every occurrence of its `from` in the current content is
/// replaced by it.
pub open spec fn rewritten(
    content: Seq<char>,
    rules: Seq<(Seq<char>, Seq<char>)>,
    vars: Map<Seq<char>, Seq<char>>,
    env: Option<Map<Seq<char>, Seq<char>>>,
) -> Seq<char>
    decreases rules.len(),
{
    if rules.len() == 0 {
        content
    } else {
        rewritten(
            replaced(content, rules[0].0, expanded(rules[0].1, vars, env)),
            rules.drop_first(),
            vars,
            env,
        )
    }
}

/// The name a declaration is served under, given its location's default name.
pub open spec fn served_name(d: FileDeclaration, default_name: Seq<char>) -> Seq<char> {
    match d.rename {
        Some(r) => r@,
        None => default_name,
    }
}

/// The store that the declarations build, given each one's fetched text, or
/// the error of the first declaration whose location yields no name.
pub open spec fn assembled(
    files: Seq<FileDeclaration>,
    contents: Seq<Seq<char>>,
    vars: Map<Seq<char>, Seq<char>>,
    env: Option<Map<Seq<char>, Seq<char>>>,
) -> Result<Map<Seq<char>, Seq<char>>, SourceError>
    decreases files.len(),
{
    if files.len() == 0 {
        Ok(Map::empty())
    } else {
        match assembled(files.drop_last(), contents, vars, env) {
            Err(e) => Err(e),
            Ok(m) => match location_name(files.last().location) {
                Err(e) => Err(e),
                Ok(n) => Ok(
                    m.insert(
                        served_name(files.last(), n),
                        rewritten(
                            contents[files.len() - 1],
                            rules_of(files.last().replacements@),
                            vars,
                            env,
                        ),
                    ),
                ),
            },
        }
    }
}

/// Applies the replacements to `content` in order.
pub fn apply_replacements(
    content: &str,
    reps: &Vec<Replacement>,
    vars: &StringMap,
    env: Option<&StringMap>,
) -> (r: String)
    ensures
        r@ == rewritten(content@, rules_of(reps@), vars@, env_view(env)),
{
    let ghost rules = rules_of(reps@);
    let ghost goal = rewritten(content@, rules, vars@, env_view(env));
    let n = reps.len();
    let mut cur = String::from_str(content);
    let mut i: usize = 0;
    assert(rules.subrange(0, n as int) =~= rules);
    while i < n
        invariant
            n == reps@.len(),
            i <= n,
            rules == rules_of(reps@),
            goal == rewritten(content@, rules, vars@, env_view(env)),
            rewritten(cur@, rules.subrange(i as int, n as int), vars@, env_view(env)) == goal,
        decreases n - i,
    {
        let to = expand(reps[i].to.as_str(), vars, env);
        let next = replace_all(cur.as_str(), reps[i].from.as_str(), to.as_str());
        assert(rules.subrange(i as int, n as int).drop_first() =~= rules.subrange(i + 1, n as int));
        cur = next;
        i = i + 1;
    }
    cur
}

/// The name and final content of one declaration, given its fetched text.
pub fn build_file(
    decl: &FileDeclaration,
    content: &str,
    vars: &StringMap,
    env: Option<&StringMap>,
) -> (r: Result<(String, String), SourceError>)
    ensures
        match r {
            Ok((name, text)) => location_name(decl.location) is Ok
                && name@ == served_name(*decl, location_name(decl.location)->Ok_0)
                && text@ == rewritten(content@, rules_of(decl.replacements@), vars@, env_view(env)),
            Err(e) => location_name(decl.location) == Err::<Seq<char>, SourceError>(e),
        },
{
    let default_name = match source_name(&decl.location) {
        Ok(n) => n,
        Err(e) => return Err(e),
    };
    let text = apply_replacements(content, &decl.replacements, vars, env);
    let name = match &decl.rename {
        Some(rn) => rn.clone(),
        None => default_name,
    };
    Ok((name, text))
}

/// The immutable map from served names to contents.
#[derive(Clone, Debug)]
pub struct ContentStore {
    files: StringMap,
}

impl View for ContentStore {
    type V = Map<Seq<char>, Seq<char>>;

    closed spec fn view(&self) -> Map<Seq<char>, Seq<char>> {
        self.files@
    }
}

/// The request methods the server tells apart.
#[derive(Clone, Copy, Debug, PartialEq, Eq, Structural)]
pub enum RequestMethod {
    Get,
    Other,
}

/// Status code of a found document.
pub const STATUS_OK: u16 = 200;

/// Status code of everything else.
pub const STATUS_NOT_FOUND: u16 = 404;

/// A response: status code and body.
#[derive(Clone, Debug)]
pub struct Response {
    pub status: u16,
    pub body: String,
}

/// The key a request path names: the path without its leading slash.
pub open spec fn request_key(path: Seq<char>) -> Option<Seq<char>> {
    if path.len() > 0 && path[0] == '/' {
        Some(path.drop_first())
    } else {
        None
    }
}

impl ContentStore {
    /// The content served under `name`, if any.
    pub fn get(&self, name: &str) -> (r: Option<&String>)
        ensures
            match r {
                Some(v) => self@.contains_key(name@) && v@ == self@[name@],
                None => !self@.contains_key(name@),
            },
    {
        self.files.get(name)
    }

    /// Answers a request: a GET whose path, less its leading slash, is a served
    /// name gets that content with status 200; anything else gets 404 and an
    /// empty body.
    pub fn respond(&self, method: RequestMethod, path: &str) -> (r: Response)
        ensures
            ({
                let key = request_key(path@);
                if method == RequestMethod::Get && key is Some && self@.contains_key(key->Some_0) {
                    r.status == STATUS_OK && r.body@ == self@[key->Some_0]
                } else {
                    r.status == STATUS_NOT_FOUND && r.body@.len() == 0
                }
            }),
    {
        let not_found = Response { status: STATUS_NOT_FOUND, body: String::new() };
        if method != RequestMethod::Get {
            return not_found;
        }
        let chars = chars_of(path);
        if chars.len() == 0 || chars[0] != '/' {
            return not_found;
        }
        let mut rest: Vec<char> = Vec::new();
        let mut j: usize = 1;
        while j < chars.len()
            invariant
                1 <= j <= chars@.len(),
                rest@ == chars@.subrange(1, j as int),
            decreases chars@.len() - j,
        {
            rest.push(chars[j]);
            j = j + 1;
            assert(rest@ =~= chars@.subrange(1, j as int));
        }
        assert(rest@ =~= path@.drop_first());
        let key = string_of(&rest);
        match self.files.get(key.as_str()) {
            Some(v) => Response { status: STATUS_OK, body: v.clone() },
            None => not_found,
        }
    }
}

/// Builds the store from the configuration and each declaration's fetched text
/// (`contents[i]` belongs to `config.files[i]`), with `env` the environment
/// snapshot to consult first when variables are overridden by it. Declarations
/// are taken in order; a later one replaces an earlier one of the same name.
pub fn assemble(
    config: &Configuration,
    contents: &Vec<String>,
    env: Option<&StringMap>,
) -> (r: Result<ContentStore, SourceError>)
    requires
        contents@.len() == config.files@.len(),
    ensures
        match r {
            Ok(store) => assembled(
                config.files@,
                contents@.map_values(|s: String| s@),
                config.vars@,
                env_view(env),
            ) == Ok::<Map<Seq<char>, Seq<char>>, SourceError>(store@),
            Err(e) => assembled(
                config.files@,
                contents@.map_values(|s: String| s@),
                config.vars@,
                env_view(env),
            ) == Err::<Map<Seq<char>, Seq<char>>, SourceError>(e),
        },
{
    let ghost texts = contents@.map_values(|s: String| s@);
    let ghost vars = config.vars@;
    let ghost es = env_view(env);
    let n = config.files.len();
    let mut store = StringMap::new();
    let mut i: usize = 0;
    while i < n
        invariant
            n == config.files@.len(),
            n == contents@.len(),
            i <= n,
            texts == contents@.map_values(|s: String| s@),
            vars == config.vars@,
            es == env_view(env),
            assembled(config.files@.take(i as int), texts, vars, es) == Ok::<Map<Seq<char>, Seq<char>>, SourceError>(store@),
        decreases n - i,
    {
        assert(config.files@.take(i + 1).drop_last() =~= config.files@.take(i as int));
        match build_file(&config.files[i], contents[i].as_str(), &config.vars, env) {
            Ok((name, text)) => {
                store.insert(name, text);
            }
            Err(e) => {
                proof {
                    lemma_error_persists(config.files@, texts, vars, es, i as int + 1, e);
                }
                assert(config.files@.take(n as int) =~= config.files@);
                return Err(e);
            }
        }
        i = i + 1;
    }
    assert(config.files@.take(n as int) =~= config.files@);
    Ok(ContentStore { files: store })
}

proof fn lemma_error_persists(
    files: Seq<FileDeclaration>,
    contents: Seq<Seq<char>>,
    vars: Map<Seq<char>, Seq<char>>,
    env: Option<Map<Seq<char>, Seq<char>>>,
    k: int,
    e: SourceError,
)
    requires
        0 <= k <= files.len(),
        assembled(files.take(k), contents, vars, env) == Err::<Map<Seq<char>, Seq<char>>, SourceError>(e),
    ensures
        assembled(files, contents, vars, env) == Err::<Map<Seq<char>, Seq<char>>, SourceError>(e),
    decreases files.len() - k,
{
    if k < files.len() {
        assert(files.take(k + 1).drop_last() =~= files.take(k));
        lemma_error_persists(files, contents, vars, env, k + 1, e);
    } else {
        assert(files.take(k) =~= files);
    }
}

/// Applying one list of replacements and then another is the same as applying
/// the two lists joined: replacements compose in declared order.
pub proof fn law_replacements_compose(
    content: Seq<char>,
    first: Seq<(Seq<char>, Seq<char>)>,
    second: Seq<(Seq<char>, Seq<char>)>,
    vars: Map<Seq<char>, Seq<char>>,
    env: Option<Map<Seq<char>, Seq<char>>>,
)
    ensures
        rewritten(content, first + second, vars, env) == rewritten(
            rewritten(content, first, vars, env),
            second,
            vars,
            env,
        ),
    decreases first.len(),
{
    if first.len() == 0 {
        assert(first + second =~= second);
    } else {
        assert((first + second)[0] == first[0]);
        assert((first + second).drop_first() =~= first.drop_first() + second);
        law_replacements_compose(
            replaced(content, first[0].0, expanded(first[0].1, vars, env)),
            first.drop_first(),
            second,
            vars,
            env,
        );
    }
}

/// When the store builds, the content under a name is that of the last
/// declaration served under that name: a later declaration of the same name
/// replaces an earlier one.
pub proof fn law_later_declaration_wins(
    files: Seq<FileDeclaration>,
    contents: Seq<Seq<char>>,
    vars: Map<Seq<char>, Seq<char>>,
    env: Option<Map<Seq<char>, Seq<char>>>,
    j: int,
)
    requires
        assembled(files, contents, vars, env) is Ok,
        0 <= j < files.len(),
        forall|k: int|
            j < k < files.len() && location_name(#[trigger] files[k].location) is Ok ==> served_name(
                files[k],
                location_name(files[k].location)->Ok_0,
            ) != served_name(files[j], location_name(files[j].location)->Ok_0),
    ensures
        location_name(files[j].location) is Ok,
        ({
            let m = assembled(files, contents, vars, env)->Ok_0;
            let n = served_name(files[j], location_name(files[j].location)->Ok_0);
            m.contains_key(n) && m[n] == rewritten(
                contents[j],
                rules_of(files[j].replacements@),
                vars,
                env,
            )
        }),
    decreases files.len(),
{
    let last = files.len() - 1;
    if j < last {
        let prefix = files.drop_last();
        assert forall|k: int|
            j < k < prefix.len() && location_name(#[trigger] prefix[k].location) is Ok implies served_name(
                prefix[k],
                location_name(prefix[k].location)->Ok_0,
            ) != served_name(prefix[j], location_name(prefix[j].location)->Ok_0) by {
            assert(prefix[k] == files[k]);
        }
        assert(prefix[j] == files[j]);
        law_later_declaration_wins(prefix, contents, vars, env, j);
        assert(location_name(files[last].location) is Ok);
    }
}

} // verus!
