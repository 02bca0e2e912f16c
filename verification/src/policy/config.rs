//! Policy configuration: rules and wrappers from three sources, merged.

use super::args::{long_option, options_of, optstring_options, ArgSpec, ArgStyle};
use super::builtin::{builtin_config, is_builtin};
use super::rules::{compile, compiled_from, rule_error, RuleSet};
use super::wrappers::{compile_wrappers, registry_of};
use super::{CompiledPolicy, Decision};
use crate::text::{chars_of, clone_texts, opt_text, str_eq, texts};
use vstd::prelude::*;
use vstd::string::StringExecFns;

verus! {

/// A rule as configured.
#[derive(Debug)]
pub struct RuleConfig {
    pub description: String,
    pub when: String,
    pub action: String,
    pub order: i32,
    pub message: Option<String>,
    /// Expression that yields the directory in which later commands run.
    pub capture_cwd: Option<String>,
}

/// A wrapper as configured.
#[derive(Debug)]
pub struct WrapperConfig {
    pub name: String,
    /// Expression that says whether a command is this wrapper.
    pub when: String,
    /// Options in POSIX style.
    pub getopt: Option<GetoptConfig>,
    /// Options in GNU style.
    pub getopt_gnu: Option<GetoptConfig>,
    /// Expression that yields the inner command.
    pub inner: String,
    /// Expression that yields the inner command's user.
    pub capture_user: Option<String>,
    /// Expression that yields the inner command's host.
    pub capture_host: Option<String>,
    /// Whether the inner command alone decides.
    pub skip_wrapper: bool,
    /// Whether the inner command receives no further arguments.
    pub args_complete: bool,
    /// Whether the inner command runs in a directory that cannot be known.
    pub changes_cwd: bool,
    pub order: i32,
}

/// Options of a wrapper: short ones as an optstring, or short and long ones.
#[derive(Debug)]
pub enum GetoptConfig {
    Short(String),
    Full { short: String, long: Vec<String> },
}

/// The options that a configuration declares.
pub open spec fn configured_options(g: GetoptConfig) -> Seq<(Seq<char>, bool)> {
    match g {
        GetoptConfig::Short(s) => optstring_options(s@),
        GetoptConfig::Full { short, long } => optstring_options(short@) + Seq::new(
            texts(long@).len(),
            |i: int| long_option(texts(long@)[i]),
        ),
    }
}

impl GetoptConfig {
    /// Convert to an `ArgSpec` of the given style.
    pub fn to_arg_spec(&self, style: ArgStyle) -> (r: ArgSpec)
        ensures
            r.style == style,
            options_of(r.options@) == configured_options(*self),
    {
        match self {
            GetoptConfig::Short(optstring) => ArgSpec::from_optstring(style, optstring.as_str()),
            GetoptConfig::Full { short, long } => {
                let mut refs: Vec<&str> = Vec::new();
                let mut i: usize = 0;
                while i < long.len()
                    invariant
                        i <= long@.len(),
                        refs@.len() == i,
                        forall|j: int| 0 <= j < i ==> (#[trigger] refs@[j])@ == long@[j]@,
                    decreases long@.len() - i,
                {
                    refs.push(long[i].as_str());
                    i = i + 1;
                }
                let r = ArgSpec::from_optstring_long(style, short.as_str(), refs.as_slice());
                assert(Seq::new(refs@.len(), |i: int| long_option(refs@[i]@)) =~= Seq::new(
                    texts(long@).len(),
                    |i: int| long_option(texts(long@)[i]),
                ));
                r
            },
        }
    }
}

/// A configured wrapper, mathematically.
pub ghost struct WrapperText {
    pub name: Seq<char>,
    pub when: Seq<char>,
    pub getopt: Option<(ArgStyle, Seq<(Seq<char>, bool)>)>,
    pub inner: Seq<char>,
    pub capture_user: Option<Seq<char>>,
    pub capture_host: Option<Seq<char>>,
    pub skip_wrapper: bool,
    pub args_complete: bool,
    pub changes_cwd: bool,
    pub order: i32,
}

impl View for WrapperConfig {
    type V = WrapperText;

    open spec fn view(&self) -> WrapperText {
        WrapperText {
            name: self.name@,
            when: self.when@,
            getopt: match (self.getopt, self.getopt_gnu) {
                (Some(g), _) => Some((ArgStyle::Posix, configured_options(g))),
                (None, Some(g)) => Some((ArgStyle::Gnu, configured_options(g))),
                (None, None) => None,
            },
            inner: self.inner@,
            capture_user: opt_text(self.capture_user),
            capture_host: opt_text(self.capture_host),
            skip_wrapper: self.skip_wrapper,
            args_complete: self.args_complete,
            changes_cwd: self.changes_cwd,
            order: self.order,
        }
    }
}

/// The wrappers of a list, mathematically.
pub open spec fn wrapper_texts(tagged: Seq<TaggedWrapper>) -> Seq<WrapperText> {
    Seq::new(tagged.len(), |i: int| tagged[i].config@)
}

/// A policy configuration.
#[derive(Debug)]
pub struct PolicyConfig {
    /// The decision where no rule applies.
    pub default: Option<String>,
    pub rules: Vec<RuleConfig>,
    pub wrappers: Vec<WrapperConfig>,
    /// Directories considered in-project, relative to the pane's directory.
    pub project_dirs: Option<Vec<String>>,
}

/// Where a rule comes from.
#[derive(Debug, Clone, Copy, PartialEq, Eq, PartialOrd, Ord, Structural)]
pub enum RuleSource {
    Builtin,
    Home,
    Project,
}

/// A rule and where it comes from.
#[derive(Debug)]
pub struct TaggedRule {
    pub config: RuleConfig,
    pub source: RuleSource,
    pub source_index: usize,
}

/// A wrapper and where it comes from.
#[derive(Debug)]
pub struct TaggedWrapper {
    pub config: WrapperConfig,
    pub source: RuleSource,
    pub source_index: usize,
}

/// The place of a source in the order of sources.
pub open spec fn source_rank(s: RuleSource) -> int {
    match s {
        RuleSource::Builtin => 0,
        RuleSource::Home => 1,
        RuleSource::Project => 2,
    }
}

/// Whether a place (order, source, index) is not after another.
pub open spec fn not_after(a: (int, int, int), b: (int, int, int)) -> bool {
    a.0 < b.0 || (a.0 == b.0 && (a.1 < b.1 || (a.1 == b.1 && a.2 <= b.2)))
}

/// Something with a place in the merged order.
pub trait Placed {
    /// Its configured order, its source and its index there.
    spec fn place(&self) -> (int, int, int);

    /// Its configured order, its source and its index there.
    fn place_of(&self) -> (r: (i32, RuleSource, usize))
        ensures
            (r.0 as int, source_rank(r.1), r.2 as int) == self.place(),
    ;
}

impl Placed for TaggedRule {
    open spec fn place(&self) -> (int, int, int) {
        (self.config.order as int, source_rank(self.source), self.source_index as int)
    }

    fn place_of(&self) -> (r: (i32, RuleSource, usize)) {
        (self.config.order, self.source, self.source_index)
    }
}

impl Placed for TaggedWrapper {
    open spec fn place(&self) -> (int, int, int) {
        (self.config.order as int, source_rank(self.source), self.source_index as int)
    }

    fn place_of(&self) -> (r: (i32, RuleSource, usize)) {
        (self.config.order, self.source, self.source_index)
    }
}

/// Whether a sequence is in the merged order.
pub open spec fn in_order<T: Placed>(s: Seq<T>) -> bool {
    forall|i: int, j: int|
        0 <= i < j < s.len() ==> not_after((#[trigger] s[i]).place(), (#[trigger] s[j]).place())
}

/// The rank of a source as a number.
fn source_number(s: RuleSource) -> (r: u8)
    ensures
        r == source_rank(s),
{
    match s {
        RuleSource::Builtin => 0,
        RuleSource::Home => 1,
        RuleSource::Project => 2,
    }
}

/// Whether `a` is not after `b`.
fn precedes<T: Placed>(a: &T, b: &T) -> (r: bool)
    ensures
        r == not_after(a.place(), b.place()),
{
    let (p, q, k) = a.place_of();
    let (x, y, z) = b.place_of();
    let s: u8 = source_number(q);
    let t: u8 = source_number(y);
    p < x || (p == x && (s < t || (s == t && k <= z)))
}

/// Bring items into the merged order.
fn sort_placed<T: Placed>(items: Vec<T>) -> (r: Vec<T>)
    ensures
        in_order(r@),
        r@.to_multiset() == items@.to_multiset(),
{
    broadcast use vstd::seq_lib::group_to_multiset_ensures;
    broadcast use vstd::multiset::group_multiset_axioms;

    let ghost all = items@;
    let mut rest = items;
    let mut out: Vec<T> = Vec::new();
    assert(out@.to_multiset().add(rest@.to_multiset()) =~= all.to_multiset());
    while rest.len() > 0
        invariant
            in_order(out@),
            out@.to_multiset().add(rest@.to_multiset()) == all.to_multiset(),
        decreases rest@.len(),
    {
        let ghost before = out@;
        let ghost left = rest@;
        let x = rest.remove(0);
        let mut p: usize = out.len();
        while p > 0 && !precedes(&out[p - 1], &x)
            invariant
                p <= out@.len(),
                out@ == before,
                in_order(before),
                forall|j: int|
                    p <= j < before.len() ==> !not_after((#[trigger] before[j]).place(), x.place()),
            decreases p,
        {
            assert forall|j: int| p - 1 <= j < before.len() implies !not_after(
                (#[trigger] before[j]).place(),
                x.place(),
            ) by {
                if j > p - 1 {
                    assert(not_after(before[p - 1].place(), before[j].place()));
                }
            }
            p = p - 1;
        }
        out.insert(p, x);
        proof {
            insert_keeps_order(before, p as int, x);
            vstd::seq_lib::to_multiset_insert(before, p as int, x);
            vstd::seq_lib::to_multiset_remove(left, 0);
            vstd::seq_lib::to_multiset_contains(left, left[0]);
            assert(left.contains(left[0]));
            assert(out@.to_multiset().add(rest@.to_multiset()) =~= before.to_multiset().add(
                left.to_multiset(),
            ));
        }
    }
    assert(rest@.to_multiset() =~= Seq::<T>::empty().to_multiset());
    assert(out@.to_multiset() =~= all.to_multiset());
    out
}

/// An item put between those not after it and those after it keeps the order.
proof fn insert_keeps_order<T: Placed>(s: Seq<T>, p: int, x: T)
    requires
        in_order(s),
        0 <= p <= s.len(),
        p > 0 ==> not_after(s[p - 1].place(), x.place()),
        forall|j: int| p <= j < s.len() ==> !not_after((#[trigger] s[j]).place(), x.place()),
    ensures
        in_order(s.insert(p, x)),
{
    let t = s.insert(p, x);
    assert forall|i: int, j: int| 0 <= i < j < t.len() implies not_after(
        (#[trigger] t[i]).place(),
        (#[trigger] t[j]).place(),
    ) by {
        if i < p && j < p {
            assert(t[i] == s[i] && t[j] == s[j]);
        } else if i < p && j == p {
            assert(t[i] == s[i]);
            if i < p - 1 {
                assert(not_after(s[i].place(), s[p - 1].place()));
            }
        } else if i < p {
            assert(t[i] == s[i] && t[j] == s[j - 1]);
        } else if i == p {
            assert(t[j] == s[j - 1]);
        } else {
            assert(t[i] == s[i - 1] && t[j] == s[j - 1]);
        }
    }
}

/// Rules with their source.
pub open spec fn tagged_rules(rules: Seq<RuleConfig>, source: RuleSource) -> Seq<TaggedRule> {
    Seq::new(
        rules.len(),
        |i: int| TaggedRule { config: rules[i], source, source_index: i as usize },
    )
}

/// Wrappers with their source.
pub open spec fn tagged_wrappers(
    wrappers: Seq<WrapperConfig>,
    source: RuleSource,
) -> Seq<TaggedWrapper> {
    Seq::new(
        wrappers.len(),
        |i: int| TaggedWrapper { config: wrappers[i], source, source_index: i as usize },
    )
}

/// Append rules with their source.
fn tag_rules(out: &mut Vec<TaggedRule>, rules: Vec<RuleConfig>, source: RuleSource)
    ensures
        final(out)@ == old(out)@ + tagged_rules(rules@, source),
{
    let ghost all = rules@;
    let mut rest = rules;
    let n: usize = rest.len();
    let mut i: usize = 0;
    while i < n
        invariant
            i <= n == all.len(),
            rest@ == all.subrange(i as int, n as int),
            out@ == old(out)@ + tagged_rules(all, source).subrange(0, i as int),
        decreases n - i,
    {
        let config = rest.remove(0);
        assert(rest@ =~= all.subrange(i + 1, n as int));
        out.push(TaggedRule { config, source, source_index: i });
        i = i + 1;
        assert(out@ =~= old(out)@ + tagged_rules(all, source).subrange(0, i as int));
    }
    assert(tagged_rules(all, source).subrange(0, n as int) =~= tagged_rules(all, source));
}

/// Append wrappers with their source.
fn tag_wrappers(out: &mut Vec<TaggedWrapper>, wrappers: Vec<WrapperConfig>, source: RuleSource)
    ensures
        final(out)@ == old(out)@ + tagged_wrappers(wrappers@, source),
{
    let ghost all = wrappers@;
    let mut rest = wrappers;
    let n: usize = rest.len();
    let mut i: usize = 0;
    while i < n
        invariant
            i <= n == all.len(),
            rest@ == all.subrange(i as int, n as int),
            out@ == old(out)@ + tagged_wrappers(all, source).subrange(0, i as int),
        decreases n - i,
    {
        let config = rest.remove(0);
        assert(rest@ =~= all.subrange(i + 1, n as int));
        out.push(TaggedWrapper { config, source, source_index: i });
        i = i + 1;
        assert(out@ =~= old(out)@ + tagged_wrappers(all, source).subrange(0, i as int));
    }
    assert(tagged_wrappers(all, source).subrange(0, n as int) =~= tagged_wrappers(all, source));
}

/// The decision that a configured default names.
pub open spec fn default_decision(s: Seq<char>) -> Decision {
    if s == "allow"@ {
        Decision::Allow
    } else if s == "deny"@ {
        Decision::Deny
    } else {
        Decision::Ask
    }
}

/// The decision that a configured default names.
pub fn parse_decision(s: &str) -> (r: Decision)
    ensures
        r == default_decision(s@),
{
    if str_eq(s, "allow") {
        Decision::Allow
    } else if str_eq(s, "deny") {
        Decision::Deny
    } else {
        Decision::Ask
    }
}

/// The rules of an optional configuration.
pub open spec fn rules_in(c: Option<PolicyConfig>) -> Seq<RuleConfig> {
    match c {
        Some(p) => p.rules@,
        None => Seq::empty(),
    }
}

/// The wrappers of an optional configuration.
pub open spec fn wrappers_in(c: Option<PolicyConfig>) -> Seq<WrapperConfig> {
    match c {
        Some(p) => p.wrappers@,
        None => Seq::empty(),
    }
}

/// The default of an optional configuration.
pub open spec fn default_in(c: Option<PolicyConfig>) -> Option<Seq<char>> {
    match c {
        Some(p) => opt_text(p.default),
        None => None,
    }
}

/// The project directories of an optional configuration.
pub open spec fn dirs_in(c: Option<PolicyConfig>) -> Option<Seq<Seq<char>>> {
    match c {
        Some(p) => match p.project_dirs {
            Some(v) => Some(texts(v@)),
            None => None,
        },
        None => None,
    }
}

/// The first of three that is there.
pub open spec fn first_of<A>(a: Option<A>, b: Option<A>, c: Option<A>) -> Option<A> {
    if a is Some {
        a
    } else if b is Some {
        b
    } else {
        c
    }
}

/// Whether `m` is what the three sources merge to: a project's default comes
/// before that of the home configuration, and that before the built-in one;
/// rules and wrappers come by order, then by source, then as they were written.
pub open spec fn merged_from(
    m: (Decision, Vec<TaggedRule>, Vec<TaggedWrapper>),
    builtin: PolicyConfig,
    home: Option<PolicyConfig>,
    project: Option<PolicyConfig>,
) -> bool {
    &&& m.0 == (match first_of(default_in(project), default_in(home), default_in(Some(builtin))) {
        Some(s) => default_decision(s),
        None => Decision::Ask,
    })
    &&& in_order(m.1@)
    &&& m.1@.to_multiset() == (tagged_rules(builtin.rules@, RuleSource::Builtin)
        + tagged_rules(rules_in(home), RuleSource::Home) + tagged_rules(
        rules_in(project),
        RuleSource::Project,
    )).to_multiset()
    &&& in_order(m.2@)
    &&& m.2@.to_multiset() == (tagged_wrappers(builtin.wrappers@, RuleSource::Builtin)
        + tagged_wrappers(wrappers_in(home), RuleSource::Home) + tagged_wrappers(
        wrappers_in(project),
        RuleSource::Project,
    )).to_multiset()
}

/// The decision that an optional default names.
fn decision_in(c: &Option<PolicyConfig>) -> (r: Option<Decision>)
    ensures
        r == (match default_in(*c) {
            Some(s) => Some(default_decision(s)),
            None => None,
        }),
{
    match c {
        Some(p) => match &p.default {
            Some(s) => Some(parse_decision(s.as_str())),
            None => None,
        },
        None => None,
    }
}

/// The project directories of an optional configuration.
fn project_dirs_in(c: &Option<PolicyConfig>) -> (r: Option<Vec<String>>)
    ensures
        match r {
            Some(v) => dirs_in(*c) == Some(texts(v@)),
            None => dirs_in(*c) is None,
        },
{
    match c {
        Some(p) => match &p.project_dirs {
            Some(v) => Some(clone_texts(v.as_slice())),
            None => None,
        },
        None => None,
    }
}

/// Merge configuration from three sources.
pub fn merge(
    builtin: PolicyConfig,
    home: Option<PolicyConfig>,
    project: Option<PolicyConfig>,
) -> (r: (Decision, Vec<TaggedRule>, Vec<TaggedWrapper>))
    ensures
        merged_from(r, builtin, home, project),
{
    let ghost b = builtin;
    let base = Some(builtin);
    let default = match decision_in(&project) {
        Some(d) => d,
        None => match decision_in(&home) {
            Some(d) => d,
            None => match decision_in(&base) {
                Some(d) => d,
                None => Decision::Ask,
            },
        },
    };
    let mut rules: Vec<TaggedRule> = Vec::new();
    let mut wrappers: Vec<TaggedWrapper> = Vec::new();
    if let Some(c) = base {
        tag_rules(&mut rules, c.rules, RuleSource::Builtin);
        tag_wrappers(&mut wrappers, c.wrappers, RuleSource::Builtin);
    }
    match home {
        Some(c) => {
            tag_rules(&mut rules, c.rules, RuleSource::Home);
            tag_wrappers(&mut wrappers, c.wrappers, RuleSource::Home);
        },
        None => {},
    }
    assert(rules@ =~= tagged_rules(b.rules@, RuleSource::Builtin) + tagged_rules(
        rules_in(home),
        RuleSource::Home,
    ));
    assert(wrappers@ =~= tagged_wrappers(b.wrappers@, RuleSource::Builtin) + tagged_wrappers(
        wrappers_in(home),
        RuleSource::Home,
    ));
    let ghost second_rules = rules@;
    let ghost second_wrappers = wrappers@;
    match project {
        Some(c) => {
            tag_rules(&mut rules, c.rules, RuleSource::Project);
            tag_wrappers(&mut wrappers, c.wrappers, RuleSource::Project);
        },
        None => {},
    }
    assert(rules@ =~= second_rules + tagged_rules(rules_in(project), RuleSource::Project));
    assert(wrappers@ =~= second_wrappers + tagged_wrappers(
        wrappers_in(project),
        RuleSource::Project,
    ));
    (default, sort_placed(rules), sort_placed(wrappers))
}

/// The project directories that apply: those of the project, or else of the
/// home configuration, or else the pane's own directory.
pub fn merged_project_dirs(home: &Option<PolicyConfig>, project: &Option<PolicyConfig>) -> (r: Vec<
    String,
>)
    ensures
        texts(r@) == (match first_of(dirs_in(*project), dirs_in(*home), None) {
            Some(d) => d,
            None => seq!["."@],
        }),
{
    if let Some(d) = project_dirs_in(project) {
        return d;
    }
    if let Some(d) = project_dirs_in(home) {
        return d;
    }
    let mut here: Vec<String> = Vec::new();
    here.push(".".to_owned());
    assert(texts(here@) =~= seq!["."@]);
    here
}

/// Merge the built-in configuration with those that were read.
pub fn load_merged_config(home: Option<PolicyConfig>, project: Option<PolicyConfig>) -> (r: (
    Decision,
    Vec<TaggedRule>,
    Vec<TaggedWrapper>,
))
    ensures
        exists|builtin: PolicyConfig|
            is_builtin(builtin) && #[trigger] merged_from(r, builtin, home, project),
{
    let builtin = builtin_config();
    merge(builtin, home, project)
}

/// Whether a rule set is what merged rules compile to: the rules as merged, or
/// none with the default `ask` where one does not compile.
pub open spec fn compiles_to(set: RuleSet, rules: Seq<TaggedRule>, default: Decision) -> bool {
    if forall|i: int| 0 <= i < rules.len() ==> rule_error(#[trigger] rules[i]) is None {
        set.default == default && set.rules@.len() == rules.len() && forall|i: int|
            0 <= i < rules.len() ==> compiled_from(#[trigger] set.rules@[i], rules[i])
    } else {
        set.default == Decision::Ask && set.rules@.len() == 0
    }
}

/// Compile the built-in configuration merged with those that were read. Where a
/// rule does not compile, no rule applies and everything is asked.
pub fn compile_config(home: Option<PolicyConfig>, project: Option<PolicyConfig>) -> (r:
    CompiledPolicy)
    ensures
        texts(r.rules.project_dirs@) == (match first_of(dirs_in(project), dirs_in(home), None) {
            Some(d) => d,
            None => seq!["."@],
        }),
        exists|builtin: PolicyConfig, m: (Decision, Vec<TaggedRule>, Vec<TaggedWrapper>)|
            is_builtin(builtin) && #[trigger] merged_from(m, builtin, home, project)
                && compiles_to(r.rules, m.1@, m.0) && r.wrappers@ == registry_of(
                wrapper_texts(m.2@),
                m.2@.len() as int,
            ),
{
    let project_dirs = merged_project_dirs(&home, &project);
    let ghost h = home;
    let ghost p = project;
    let merged = load_merged_config(home, project);
    let ghost m = merged;
    let (default, tagged, tagged_wrappers) = merged;
    let wrappers = compile_wrappers(tagged_wrappers.as_slice());
    let rules = match compile(tagged.as_slice(), default) {
        Ok(set) => {
            assert forall|i: int| 0 <= i < tagged@.len() implies rule_error(
                #[trigger] tagged@[i],
            ) is None by {
                assert(compiled_from(set.rules@[i], tagged@[i]));
            }
            RuleSet { rules: set.rules, default: set.default, project_dirs }
        },
        Err(_) => RuleSet { rules: Vec::new(), default: Decision::Ask, project_dirs },
    };
    proof {
        let builtin = choose|builtin: PolicyConfig|
            is_builtin(builtin) && #[trigger] merged_from(m, builtin, h, p);
        assert(is_builtin(builtin) && merged_from(m, builtin, h, p));
        assert(compiles_to(rules, m.1@, m.0));
    }
    CompiledPolicy { rules, wrappers }
}

/// A path with a name added to it.
pub open spec fn joined_path(dir: Seq<char>, name: Seq<char>) -> Seq<char> {
    if dir.len() == 0 || dir.last() == '/' {
        dir + name
    } else {
        dir + "/"@ + name
    }
}

/// The path of a directory's policy configuration, which is kept in its settings
/// directory.
pub open spec fn config_path(dir: Seq<char>, settings: Seq<char>) -> Seq<char> {
    joined_path(joined_path(dir, settings), "tmux-mcp.toml"@)
}

/// A path with a name added to it.
fn join_path(dir: &str, name: &str) -> (r: String)
    ensures
        r@ == joined_path(dir@, name@),
{
    let chars = chars_of(dir);
    let mut path = dir.to_owned();
    if !(chars.len() == 0 || chars[chars.len() - 1] == '/') {
        path.append("/");
    }
    path.append(name);
    path
}

/// The path of a directory's policy configuration, whether or not it exists.
/// `settings` is the name of the directory in it that settings are kept in.
pub fn project_config_path_always(dir: &str, settings: &str) -> (r: String)
    ensures
        r@ == config_path(dir@, settings@),
{
    let path = join_path(dir, settings);
    join_path(path.as_str(), "tmux-mcp.toml")
}

/// When a configuration file was last seen changed.
#[derive(Debug)]
pub struct FileStamp {
    pub path: String,
    /// Modification time in nanoseconds.
    pub modified: u128,
}

/// Whether configuration files differ from when they were last read: the home
/// file by its time, the project file, where a project is given, by its path
/// and time.
pub fn config_changed(
    home_before: Option<u128>,
    home_now: Option<u128>,
    project_before: &Option<FileStamp>,
    project_now: Option<(&str, Option<u128>)>,
) -> (r: bool)
    ensures
        r == (home_before != home_now || (match (project_now, *project_before) {
            (None, _) => false,
            (Some((_, None)), None) => false,
            (Some((path, Some(now))), Some(seen)) => !(seen.path@ == path@ && seen.modified == now),
            _ => true,
        })),
{
    let home_changed = match (home_before, home_now) {
        (Some(a), Some(b)) => a != b,
        (None, None) => false,
        _ => true,
    };
    if home_changed {
        return true;
    }
    match (project_now, project_before) {
        (None, _) => false,
        (Some((_, None)), None) => false,
        (Some((path, Some(now))), Some(seen)) => !(str_eq(seen.path.as_str(), path)
            && seen.modified == now),
        _ => true,
    }
}

/// A lower order comes first; at the same order what is built in comes before the
/// home configuration, and that before the project's; and within one of these what
/// was written first.
pub proof fn merged_order(a: TaggedRule, b: TaggedRule)
    ensures
        a.config.order < b.config.order ==> not_after(a.place(), b.place()) && !not_after(
            b.place(),
            a.place(),
        ),
        a.config.order == b.config.order && a.source is Builtin && !(b.source is Builtin)
            ==> not_after(a.place(), b.place()) && !not_after(b.place(), a.place()),
        a.config.order == b.config.order && a.source is Home && b.source is Project ==> not_after(
            a.place(),
            b.place(),
        ) && !not_after(b.place(), a.place()),
        a.config.order == b.config.order && a.source == b.source && a.source_index < b.source_index
            ==> not_after(a.place(), b.place()) && !not_after(b.place(), a.place()),
        not_after(a.place(), b.place()) || not_after(b.place(), a.place()),
{
}

/// The same for wrappers.
pub proof fn merged_wrapper_order(a: TaggedWrapper, b: TaggedWrapper)
    ensures
        a.config.order < b.config.order ==> not_after(a.place(), b.place()) && !not_after(
            b.place(),
            a.place(),
        ),
        a.config.order == b.config.order && a.source is Builtin && !(b.source is Builtin)
            ==> not_after(a.place(), b.place()) && !not_after(b.place(), a.place()),
        a.config.order == b.config.order && a.source is Home && b.source is Project ==> not_after(
            a.place(),
            b.place(),
        ) && !not_after(b.place(), a.place()),
        a.config.order == b.config.order && a.source == b.source && a.source_index < b.source_index
            ==> not_after(a.place(), b.place()) && !not_after(b.place(), a.place()),
{
}

/// Every rule of the three sources is among the merged ones, with the source that
/// it comes from.
pub proof fn every_rule_is_merged(
    m: (Decision, Vec<TaggedRule>, Vec<TaggedWrapper>),
    builtin: PolicyConfig,
    home: Option<PolicyConfig>,
    project: Option<PolicyConfig>,
    i: int,
)
    requires
        merged_from(m, builtin, home, project),
    ensures
        0 <= i < builtin.rules@.len() ==> exists|k: int|
            0 <= k < m.1@.len() && (#[trigger] m.1@[k]).config == builtin.rules@[i] && m.1@[k].source
                is Builtin,
        home matches Some(c) ==> (0 <= i < c.rules@.len() ==> exists|k: int|
            0 <= k < m.1@.len() && (#[trigger] m.1@[k]).config == c.rules@[i] && m.1@[k].source
                is Home),
        project matches Some(c) ==> (0 <= i < c.rules@.len() ==> exists|k: int|
            0 <= k < m.1@.len() && (#[trigger] m.1@[k]).config == c.rules@[i] && m.1@[k].source
                is Project),
        m.1@.len() == builtin.rules@.len() + rules_in(home).len() + rules_in(project).len(),
        m.2@.len() == builtin.wrappers@.len() + wrappers_in(home).len() + wrappers_in(project).len(),
{
    let a = tagged_rules(builtin.rules@, RuleSource::Builtin);
    let b = tagged_rules(rules_in(home), RuleSource::Home);
    let c = tagged_rules(rules_in(project), RuleSource::Project);
    let all = a + b + c;
    all.to_multiset_ensures();
    m.1@.to_multiset_ensures();
    let w = tagged_wrappers(builtin.wrappers@, RuleSource::Builtin) + tagged_wrappers(
        wrappers_in(home),
        RuleSource::Home,
    ) + tagged_wrappers(wrappers_in(project), RuleSource::Project);
    w.to_multiset_ensures();
    m.2@.to_multiset_ensures();
    if 0 <= i < builtin.rules@.len() {
        assert(all[i] == a[i]);
        assert(all.to_multiset().count(a[i]) > 0);
        assert(m.1@.contains(a[i]));
        let k = choose|k: int| 0 <= k < m.1@.len() && m.1@[k] == a[i];
        assert(m.1@[k].config == builtin.rules@[i]);
    }
    if let Some(h) = home {
        if 0 <= i < h.rules@.len() {
            assert(all[a.len() + i] == b[i]);
            assert(all.to_multiset().count(b[i]) > 0);
            assert(m.1@.contains(b[i]));
            let k = choose|k: int| 0 <= k < m.1@.len() && m.1@[k] == b[i];
            assert(m.1@[k].config == h.rules@[i]);
        }
    }
    if let Some(p) = project {
        if 0 <= i < p.rules@.len() {
            assert(all[a.len() + b.len() + i] == c[i]);
            assert(all.to_multiset().count(c[i]) > 0);
            assert(m.1@.contains(c[i]));
            let k = choose|k: int| 0 <= k < m.1@.len() && m.1@[k] == c[i];
            assert(m.1@[k].config == p.rules@[i]);
        }
    }
}

/// The default of the project counts before that of the home configuration, and
/// that before the built-in one; where none is given, everything is asked.
pub proof fn nearest_default_counts(
    m: (Decision, Vec<TaggedRule>, Vec<TaggedWrapper>),
    builtin: PolicyConfig,
    home: Option<PolicyConfig>,
    project: Option<PolicyConfig>,
)
    requires
        merged_from(m, builtin, home, project),
    ensures
        default_in(project) matches Some(s) ==> m.0 == default_decision(s),
        default_in(project) is None && default_in(home) is Some ==> m.0 == default_decision(
            default_in(home)->0,
        ),
        default_in(project) is None && default_in(home) is None && builtin.default is None ==> m.0
            == Decision::Ask,
        default_decision("allow"@) == Decision::Allow,
        default_decision("deny"@) == Decision::Deny,
        forall|s: Seq<char>|
            s != "allow"@ && s != "deny"@ ==> #[trigger] default_decision(s) == Decision::Ask,
{
    reveal_strlit("allow");
    reveal_strlit("deny");
    assert("allow"@.len() == 5 && "deny"@.len() == 4);
}

/// The nearest of the configurations that say something counts.
pub proof fn nearest_counts<T>(a: T, b: Option<T>, c: Option<T>)
    ensures
        first_of(Some(a), b, c) == Some(a),
        first_of(None, b, c) == (if b is Some {
            b
        } else {
            c
        }),
{
}

/// The configuration of a directory lies in its settings directory, whether or not
/// the directory is written with a slash at its end.
pub proof fn configuration_lies_in_the_settings(dir: Seq<char>, settings: Seq<char>)
    requires
        dir.len() > 0,
        dir.last() != '/',
        settings.len() > 0,
        settings.last() != '/',
    ensures
        config_path(dir, settings) == dir + "/"@ + settings + "/"@ + "tmux-mcp.toml"@,
        config_path(dir + "/"@, settings) == config_path(dir, settings),
{
    reveal_strlit("/");
    let slash = "/"@;
    assert((dir + slash).last() == '/');
    assert((dir + slash + settings).last() == settings.last());
}

/// Every option of a configured wrapper is declared: those of the option string,
/// and the long ones behind them.
pub proof fn long_options_are_declared(g: GetoptConfig, short: String, long: Vec<String>, i: int)
    requires
        g == (GetoptConfig::Full { short, long }),
        0 <= i < long@.len(),
    ensures
        long@[i]@.len() > 0 && long@[i]@.last() == ':' ==> configured_options(g).contains(
            (long@[i]@.drop_last(), true),
        ),
        !(long@[i]@.len() > 0 && long@[i]@.last() == ':') ==> configured_options(g).contains(
            (long@[i]@, false),
        ),
        forall|k: int|
            0 <= k < optstring_options(short@).len() ==> #[trigger] configured_options(g)[k]
                == optstring_options(short@)[k],
{
    let all = configured_options(g);
    let n = optstring_options(short@).len() as int;
    assert(texts(long@)[i] == long@[i]@);
    assert(all[n + i] == long_option(long@[i]@));
}

/// Where one rule does not compile, none is applied and everything is asked; where
/// all do, each is applied in its place, under the default that was configured.
pub proof fn bad_rule_asks_everything(
    set: RuleSet,
    rules: Seq<TaggedRule>,
    default: Decision,
    i: int,
)
    requires
        compiles_to(set, rules, default),
        0 <= i < rules.len(),
    ensures
        rule_error(rules[i]) is Some ==> set.default == Decision::Ask && set.rules@.len() == 0,
        (forall|k: int| 0 <= k < rules.len() ==> rule_error(#[trigger] rules[k]) is None)
            ==> set.default == default && compiled_from(set.rules@[i], rules[i]) && set.rules@.len()
            == rules.len(),
{
}

} // verus!
