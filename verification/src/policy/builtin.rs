//! Built-in policy: the rules and wrappers that apply without configuration.

use super::args::{long_option, optstring_options, ArgStyle};
use super::config::{configured_options, GetoptConfig, PolicyConfig, RuleConfig, TaggedWrapper, RuleSource, WrapperConfig, WrapperText, wrapper_texts};
use super::wrappers::{compile_wrappers, registry_of, WrapperModel, WrapperRegistry};
use crate::text::{opt_text, texts};
use vstd::prelude::*;

verus! {

/// The decision where no rule applies.
pub const BUILTIN_DEFAULT: &'static str = "ask";

/// The built-in rules: description, expression and action.
pub const BUILTIN_RULES: [(&'static str, &'static str, &'static str); 17] = [
    (
        "eval",
        "command.name == \"eval\"",
        "deny",
    ),
    (
        "source",
        "command.name in [\"source\", \".\"]",
        "deny",
    ),
    (
        "exec",
        "command.name == \"exec\"",
        "deny",
    ),
    (
        "pipe to shell",
        "command.is_pipe_target && command.name in [\"sh\", \"bash\", \"zsh\", \"dash\", \"ksh\", \"fish\"]",
        "deny",
    ),
    (
        "write redirect (out-of-project)",
        "command.write_targets.exists(t, t != \"/dev/null\" && !in_project(path(t)))",
        "ask",
    ),
    (
        "privilege escalation",
        "command.name in [\"sudo\", \"doas\", \"su\", \"pkexec\", \"runuser\"]",
        "ask",
    ),
    (
        "rm recursive",
        "command.name == \"rm\" && (has_short_flag(command.args, \"r\") || has_short_flag(command.args, \"R\") || command.args.exists(a, a == \"--recursive\"))",
        "ask",
    ),
    (
        "permission changes",
        "command.name in [\"chmod\", \"chown\", \"chgrp\", \"chattr\", \"setfacl\"]",
        "ask",
    ),
    (
        "awk code execution",
        "command.name in [\"awk\", \"gawk\", \"mawk\", \"nawk\"] && command.args.exists(a, contains(a, \"system(\") || contains(a, \"getline\") || contains(a, \"|\"))",
        "ask",
    ),
    (
        "find modification",
        "command.name == \"find\" && command.args.exists(a, a in [\"-delete\", \"-fprint\", \"-fprintf\", \"-fls\"])",
        "ask",
    ),
    (
        "network transfer",
        "command.name in [\"curl\", \"wget\", \"nc\", \"ncat\", \"scp\", \"rsync\", \"sftp\", \"ftp\"]",
        "ask",
    ),
    (
        "cargo install",
        "command.name == \"cargo\" && command.args.exists(a, a in [\"install\", \"uninstall\", \"publish\", \"login\", \"logout\", \"owner\", \"yank\"])",
        "ask",
    ),
    (
        "information",
        "command.name in [\"echo\", \"printf\", \"date\", \"pwd\", \"whoami\", \"hostname\", \"uname\", \"id\", \"true\", \"false\", \"which\", \"type\", \"basename\", \"dirname\", \"seq\", \"uptime\"]",
        "allow",
    ),
    (
        "file readers (in-project)",
        "command.name in [\"ls\", \"cat\", \"head\", \"tail\", \"less\", \"more\", \"grep\", \"egrep\", \"fgrep\", \"rg\", \"wc\", \"diff\", \"cmp\", \"sort\", \"uniq\", \"cut\", \"tr\", \"nl\", \"stat\", \"file\", \"du\", \"tree\", \"awk\", \"gawk\", \"mawk\", \"nawk\", \"find\", \"jq\"] && !command.args.exists(a, !startsWith(a, \"-\") && !in_project(path(a)))",
        "allow",
    ),
    (
        "file operations (in-project)",
        "command.name in [\"mkdir\", \"cp\", \"mv\", \"touch\", \"ln\", \"rm\", \"rmdir\", \"sed\", \"tee\"] && !command.args.exists(a, !startsWith(a, \"-\") && !in_project(path(a)))",
        "allow",
    ),
    (
        "cargo",
        "command.name == \"cargo\" && command.args[0] in [\"build\", \"check\", \"clippy\", \"test\", \"run\", \"doc\", \"fmt\", \"bench\", \"tree\", \"metadata\", \"--version\"]",
        "allow",
    ),
    (
        "git read",
        "command.name == \"git\" && command.args[0] in [\"status\", \"log\", \"diff\", \"show\", \"branch\", \"blame\", \"describe\", \"rev-parse\", \"ls-files\", \"shortlog\"]",
        "allow",
    ),
];

/// A built-in wrapper: name, expression that matches it, whether its options
/// follow no style (0), POSIX (1) or GNU (2), short options, long options,
/// expressions for the inner command and its user and host, whether the inner
/// command alone decides, and whether it receives no further arguments.
pub type WrapperRow = (
    &'static str,
    &'static str,
    u8,
    &'static str,
    [&'static str; 8],
    &'static str,
    &'static str,
    &'static str,
    bool,
    bool,
);

/// The built-in wrappers.
pub const BUILTIN_WRAPPERS: [WrapperRow; 15] = [
    (
        "command",
        "command.name in [\"command\", \"builtin\", \"nohup\"]",
        0,
        "",
        ["", "", "", "", "", "", "", ""],
        "command.args",
        "",
        "",
        true,
        true,
    ),
    (
        "nice",
        "command.name == \"nice\"",
        1,
        "n:",
        ["adjustment:", "", "", "", "", "", "", ""],
        "command.getopt.operands",
        "",
        "",
        true,
        true,
    ),
    (
        "strace",
        "command.name == \"strace\"",
        1,
        "AcCdDfFhiknqrtTvVwWxyYzZa:b:e:E:I:o:O:p:P:s:S:u:X:",
        ["", "", "", "", "", "", "", ""],
        "command.getopt.operands",
        "",
        "",
        true,
        true,
    ),
    (
        "watch",
        "command.name == \"watch\"",
        1,
        "bcdeghptxn:",
        ["interval:", "", "", "", "", "", "", ""],
        "command.getopt.operands",
        "",
        "",
        true,
        true,
    ),
    (
        "timeout",
        "command.name == \"timeout\"",
        1,
        "fvk:s:",
        ["signal:", "kill-after:", "preserve-status", "foreground", "verbose", "", "", ""],
        "command.getopt.operands_from(1)",
        "",
        "",
        true,
        true,
    ),
    (
        "sudo",
        "command.name == \"sudo\"",
        1,
        "AbEeHhiKklnPSsVvC:D:g:p:R:r:T:t:U:u:",
        ["user:", "group:", "chdir:", "login", "shell", "preserve-env", "non-interactive", "set-home"],
        "command.getopt.operands",
        "or(command.getopt.value(\"u\"), or(command.getopt.value(\"user\"), \"root\"))",
        "",
        true,
        true,
    ),
    (
        "doas",
        "command.name == \"doas\"",
        1,
        "Lnsa:C:u:",
        ["", "", "", "", "", "", "", ""],
        "command.getopt.operands",
        "or(command.getopt.value(\"u\"), \"root\")",
        "",
        true,
        true,
    ),
    (
        "su",
        "command.name == \"su\"",
        1,
        "flmpPc:g:G:s:w:",
        ["command:", "", "", "", "", "", "", ""],
        "or(command.getopt.value(\"c\"), command.getopt.value(\"command\"))",
        "or(command.getopt.positional(0), \"root\")",
        "",
        true,
        true,
    ),
    (
        "shell -c",
        "command.name in [\"sh\", \"bash\", \"zsh\", \"dash\", \"ksh\"]",
        1,
        "abefhiklmnprstuvxBCDEHPc:o:O:",
        ["login", "norc", "noprofile", "posix", "", "", "", ""],
        "command.getopt.value(\"c\")",
        "",
        "",
        true,
        true,
    ),
    (
        "ssh",
        "command.name == \"ssh\"",
        1,
        "1246AaCfGgKkMNnqsTtVvXxYyB:b:c:D:E:e:F:I:i:J:L:l:m:O:o:P:p:Q:R:S:W:w:",
        ["", "", "", "", "", "", "", ""],
        "command.getopt.operands_from(1)",
        "or(command.getopt.value(\"l\"), rsplit(command.getopt.positional(0), \"@\", 2)[0])",
        "rsplit(command.getopt.positional(0), \"@\", 2)[1]",
        true,
        true,
    ),
    (
        "container exec",
        "command.name in [\"docker\", \"podman\"] && command.getopt.positional(0) == \"exec\"",
        2,
        "dite:u:w:",
        ["detach", "interactive", "tty", "privileged", "env:", "env-file:", "user:", "workdir:"],
        "command.getopt.operands_from(2)",
        "",
        "command.getopt.positional(1)",
        true,
        true,
    ),
    (
        "kubectl exec",
        "command.name == \"kubectl\" && command.getopt.positional(0) == \"exec\"",
        2,
        "itqc:f:n:",
        ["stdin", "tty", "quiet", "container:", "filename:", "namespace:", "context:", "kubeconfig:"],
        "command.getopt.operands_from(2)",
        "",
        "command.getopt.positional(1)",
        true,
        true,
    ),
    (
        "find -exec",
        "command.name == \"find\"",
        0,
        "",
        ["", "", "", "", "", "", "", ""],
        "getopt(command.args, [], {\"-exec\": [\";\", \"+\", \"\\\\;\", \"';'\"], \"-execdir\": [\";\", \"+\", \"\\\\;\", \"';'\"], \"-ok\": [\";\", \"+\", \"\\\\;\", \"';'\"], \"-okdir\": [\";\", \"+\", \"\\\\;\", \"';'\"]}).values(\"-exec\") + getopt(command.args, [], {\"-exec\": [\";\", \"+\", \"\\\\;\", \"';'\"], \"-execdir\": [\";\", \"+\", \"\\\\;\", \"';'\"], \"-ok\": [\";\", \"+\", \"\\\\;\", \"';'\"], \"-okdir\": [\";\", \"+\", \"\\\\;\", \"';'\"]}).values(\"-execdir\") + getopt(command.args, [], {\"-exec\": [\";\", \"+\", \"\\\\;\", \"';'\"], \"-execdir\": [\";\", \"+\", \"\\\\;\", \"';'\"], \"-ok\": [\";\", \"+\", \"\\\\;\", \"';'\"], \"-okdir\": [\";\", \"+\", \"\\\\;\", \"';'\"]}).values(\"-ok\") + getopt(command.args, [], {\"-exec\": [\";\", \"+\", \"\\\\;\", \"';'\"], \"-execdir\": [\";\", \"+\", \"\\\\;\", \"';'\"], \"-ok\": [\";\", \"+\", \"\\\\;\", \"';'\"], \"-okdir\": [\";\", \"+\", \"\\\\;\", \"';'\"]}).values(\"-okdir\")",
        "",
        "",
        true,
        false,
    ),
    (
        "xargs",
        "command.name == \"xargs\"",
        1,
        "0oprtxa:d:E:I:L:n:P:s:",
        ["null", "no-run-if-empty", "verbose", "arg-file:", "delimiter:", "max-args:", "max-procs:", "replace:"],
        "command.getopt.operands",
        "",
        "",
        true,
        false,
    ),
    (
        "env",
        "command.name == \"env\"",
        1,
        "0ivC:S:u:",
        ["ignore-environment", "null", "debug", "chdir:", "split-string:", "unset:", "", ""],
        "dropwhile(command.getopt.operands, a, contains(a, \"=\"))",
        "",
        "",
        false,
        true,
    ),
];

/// The long options among the first `n` names: those that are not empty.
pub open spec fn named(long: Seq<&'static str>, n: int) -> Seq<Seq<char>>
    decreases n,
{
    if n <= 0 || n > long.len() {
        Seq::empty()
    } else if long[n - 1]@.len() == 0 {
        named(long, n - 1)
    } else {
        named(long, n - 1).push(long[n - 1]@)
    }
}

/// A text that may be left out.
pub open spec fn optional(s: Seq<char>) -> Option<Seq<char>> {
    if s.len() == 0 {
        None
    } else {
        Some(s)
    }
}

/// The wrapper that a row describes.
pub open spec fn row_text(row: WrapperRow) -> WrapperText {
    let long = named(row.4@, 8);
    let options = optstring_options(row.3@) + Seq::new(long.len(), |i: int| long_option(long[i]));
    WrapperText {
        name: row.0@,
        when: row.1@,
        getopt: if row.2 == 1 {
            Some((ArgStyle::Posix, options))
        } else if row.2 == 2 {
            Some((ArgStyle::Gnu, options))
        } else {
            None
        },
        inner: row.5@,
        capture_user: optional(row.6@),
        capture_host: optional(row.7@),
        skip_wrapper: row.8,
        args_complete: row.9,
        changes_cwd: false,
        order: 0,
    }
}

/// The built-in wrappers, mathematically.
pub open spec fn builtin_wrapper_texts() -> Seq<WrapperText> {
    Seq::new(BUILTIN_WRAPPERS@.len(), |i: int| row_text(BUILTIN_WRAPPERS@[i]))
}

/// What the built-in wrappers compile to.
pub open spec fn builtin_registry() -> Seq<WrapperModel> {
    registry_of(builtin_wrapper_texts(), builtin_wrapper_texts().len() as int)
}

/// A text that may be left out.
fn optional_string(s: &str) -> (r: Option<String>)
    ensures
        opt_text(r) == optional(s@),
{
    if s.is_empty() {
        None
    } else {
        Some(s.to_owned())
    }
}

/// The long options of a row.
fn named_options(long: &[&'static str; 8]) -> (r: Vec<String>)
    ensures
        texts(r@) == named(long@, 8),
{
    let mut out: Vec<String> = Vec::new();
    let mut i: usize = 0;
    assert(texts(out@) =~= Seq::<Seq<char>>::empty());
    while i < 8
        invariant
            i <= 8,
            long@.len() == 8,
            texts(out@) == named(long@, i as int),
        decreases 8 - i,
    {
        let ghost before = texts(out@);
        let name = long[i];
        if !name.is_empty() {
            out.push(name.to_owned());
            assert(texts(out@) =~= before.push(name@));
        }
        i = i + 1;
    }
    out
}

/// The wrapper that a row describes.
fn row_config(row: &WrapperRow) -> (r: WrapperConfig)
    ensures
        r@ == row_text(*row),
{
    let long = named_options(&row.4);
    let options = GetoptConfig::Full { short: row.3.to_owned(), long };
    assert(configured_options(options) == optstring_options(row.3@) + Seq::new(
        named(row.4@, 8).len(),
        |i: int| long_option(named(row.4@, 8)[i]),
    ));
    let mut getopt: Option<GetoptConfig> = None;
    let mut getopt_gnu: Option<GetoptConfig> = None;
    if row.2 == 1 {
        getopt = Some(options);
    } else if row.2 == 2 {
        getopt_gnu = Some(options);
    }
    WrapperConfig {
        name: row.0.to_owned(),
        when: row.1.to_owned(),
        getopt,
        getopt_gnu,
        inner: row.5.to_owned(),
        capture_user: optional_string(row.6),
        capture_host: optional_string(row.7),
        skip_wrapper: row.8,
        args_complete: row.9,
        changes_cwd: false,
        order: 0,
    }
}

/// Whether `c` is the built-in configuration: the rows of the two tables, in
/// order.
pub open spec fn is_builtin(c: PolicyConfig) -> bool {
    &&& opt_text(c.default) == Some(BUILTIN_DEFAULT@)
    &&& c.project_dirs is None
    &&& c.rules@.len() == BUILTIN_RULES@.len()
    &&& forall|i: int|
        0 <= i < c.rules@.len() ==> {
            &&& (#[trigger] c.rules@[i]).description@ == BUILTIN_RULES@[i].0@
            &&& c.rules@[i].when@ == BUILTIN_RULES@[i].1@
            &&& c.rules@[i].action@ == BUILTIN_RULES@[i].2@
            &&& c.rules@[i].order == 0
            &&& c.rules@[i].message is None
            &&& c.rules@[i].capture_cwd is None
        }
    &&& c.wrappers@.len() == BUILTIN_WRAPPERS@.len()
    &&& forall|i: int|
        0 <= i < c.wrappers@.len() ==> (#[trigger] c.wrappers@[i])@ == builtin_wrapper_texts()[i]
}

/// The built-in configuration.
pub fn builtin_config() -> (r: PolicyConfig)
    ensures
        is_builtin(r),
{
    let mut rules: Vec<RuleConfig> = Vec::new();
    let mut i: usize = 0;
    while i < BUILTIN_RULES.len()
        invariant
            i <= BUILTIN_RULES@.len(),
            rules@.len() == i,
            forall|j: int|
                0 <= j < i ==> {
                    &&& (#[trigger] rules@[j]).description@ == BUILTIN_RULES@[j].0@
                    &&& rules@[j].when@ == BUILTIN_RULES@[j].1@
                    &&& rules@[j].action@ == BUILTIN_RULES@[j].2@
                    &&& rules@[j].order == 0
                    &&& rules@[j].message is None
                    &&& rules@[j].capture_cwd is None
                },
        decreases BUILTIN_RULES@.len() - i,
    {
        let row = BUILTIN_RULES[i];
        rules.push(
            RuleConfig {
                description: row.0.to_owned(),
                when: row.1.to_owned(),
                action: row.2.to_owned(),
                order: 0,
                message: None,
                capture_cwd: None,
            },
        );
        i = i + 1;
    }
    let mut wrappers: Vec<WrapperConfig> = Vec::new();
    let mut k: usize = 0;
    while k < BUILTIN_WRAPPERS.len()
        invariant
            k <= BUILTIN_WRAPPERS@.len(),
            wrappers@.len() == k,
            forall|j: int|
                0 <= j < k ==> (#[trigger] wrappers@[j])@ == builtin_wrapper_texts()[j],
        decreases BUILTIN_WRAPPERS@.len() - k,
    {
        let row = BUILTIN_WRAPPERS[k];
        wrappers.push(row_config(&row));
        k = k + 1;
    }
    PolicyConfig { default: Some(BUILTIN_DEFAULT.to_owned()), rules, wrappers, project_dirs: None }
}

/// The built-in wrappers, ready for matching.
pub fn default_registry() -> (r: WrapperRegistry)
    ensures
        r@ == builtin_registry(),
{
    let config = builtin_config();
    let mut rest = config.wrappers;
    let ghost all = rest@;
    let mut tagged: Vec<TaggedWrapper> = Vec::new();
    let n: usize = rest.len();
    while tagged.len() < n
        invariant
            n == all.len(),
            tagged@.len() <= n,
            rest@ == all.subrange(tagged@.len() as int, n as int),
            forall|j: int| 0 <= j < tagged@.len() ==> (#[trigger] tagged@[j]).config == all[j],
        decreases n - tagged@.len(),
    {
        let ghost done = tagged@.len() as int;
        let source_index: usize = tagged.len();
        let config = rest.remove(0);
        assert(rest@ =~= all.subrange(done + 1, n as int));
        tagged.push(TaggedWrapper { config, source: RuleSource::Builtin, source_index });
    }
    assert(wrapper_texts(tagged@) =~= builtin_wrapper_texts());
    compile_wrappers(tagged.as_slice())
}

} // verus!
