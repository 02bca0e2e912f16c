//! Argument parsing for command wrappers: POSIX getopt and GNU (interspersed)
//! options, with three-valued handling of what cannot be known.

use super::value::{clone_from, tri_unfold, tris, tris_push, Tri, TriMap, TriVal};
use crate::shell::{has_expansion, word_has_expansion};
use crate::text::{chars_of, copy_range, find_char, index_of_char, index_of_char_is_first, str_eq, string_of, substring};
use vstd::prelude::*;

verus! {

broadcast use tri_unfold;

/// Argument parsing style.
#[derive(Debug, Clone, Copy, PartialEq, Eq, Structural)]
pub enum ArgStyle {
    /// POSIX getopt: option processing stops at the first non-option argument.
    Posix,
    /// GNU: options are recognized anywhere before `--`.
    Gnu,
}

/// A known option. A name of one character is a short option (`-x`), a longer
/// one a long option (`--flag`, `--flag=val`).
#[derive(Debug)]
pub struct OptDef {
    pub name: String,
    pub has_arg: bool,
}

/// How to parse a command's arguments.
#[derive(Debug)]
pub struct ArgSpec {
    pub style: ArgStyle,
    pub options: Vec<OptDef>,
}

/// The options of a list: each name, and whether it takes a value.
pub open spec fn options_of(options: Seq<OptDef>) -> Seq<(Seq<char>, bool)> {
    Seq::new(options.len(), |i: int| (options[i].name@, options[i].has_arg))
}

/// Whether the first option named `name` takes a value; `None` where no option
/// has that name.
pub open spec fn find_option(options: Seq<(Seq<char>, bool)>, name: Seq<char>) -> Option<bool>
    decreases options.len(),
{
    if options.len() == 0 {
        None
    } else if options[0].0 == name {
        Some(options[0].1)
    } else {
        find_option(options.drop_first(), name)
    }
}

/// Whether `name` is an option that takes a value.
pub open spec fn valued(options: Seq<(Seq<char>, bool)>, name: Seq<char>) -> bool {
    find_option(options, name) == Some(true)
}

/// Whether `name` is an option.
pub open spec fn known(options: Seq<(Seq<char>, bool)>, name: Seq<char>) -> bool {
    find_option(options, name) is Some
}

/// The options that an optstring declares: `isC:` declares `i` and `s` without
/// a value and `C` with one.
pub open spec fn optstring_options(s: Seq<char>) -> Seq<(Seq<char>, bool)>
    decreases s.len(),
{
    if s.len() == 0 {
        Seq::empty()
    } else if s.len() >= 2 && s[1] == ':' {
        seq![(seq![s[0]], true)] + optstring_options(s.subrange(2, s.len() as int))
    } else {
        seq![(seq![s[0]], false)] + optstring_options(s.drop_first())
    }
}

/// The option that a long declaration makes: `signal:` declares `signal` with
/// a value.
pub open spec fn long_option(s: Seq<char>) -> (Seq<char>, bool) {
    if s.len() > 0 && s.last() == ':' {
        (s.drop_last(), true)
    } else {
        (s, false)
    }
}

/// What parsing arguments yields.
pub struct ArgsModel {
    /// Non-option arguments, in order.
    pub operands: Seq<Tri>,
    /// The value of each option that takes one and was given.
    pub flags: Map<Seq<char>, Tri>,
    /// Whether nothing left the parse in doubt.
    pub exhaustive: bool,
}

/// The value that a piece of text stands for: unknown where it expands.
pub open spec fn text_value(s: Seq<char>) -> Tri {
    if has_expansion(s) {
        Tri::Unknown
    } else {
        Tri::Text(s)
    }
}

/// The value that the argument at `i` gives to an option before it.
pub open spec fn value_at(args: Seq<Tri>, i: int) -> Tri {
    if i >= args.len() {
        Tri::Null
    } else {
        match args[i] {
            Tri::Text(s) => text_value(s),
            other => other,
        }
    }
}

/// The place of the first short option in a group that takes a value; the
/// group's length where none does.
pub open spec fn first_valued(options: Seq<(Seq<char>, bool)>, group: Seq<char>) -> int
    decreases group.len(),
{
    if group.len() == 0 || valued(options, seq![group[0]]) {
        0
    } else {
        1 + first_valued(options, group.drop_first())
    }
}

/// What one argument contributes.
pub struct ArgStep {
    /// How many arguments it takes up.
    pub taken: int,
    /// The option that it gives a value to.
    pub flag: Option<(Seq<char>, Tri)>,
    /// Whether it leaves no doubt about where values end and operands start.
    pub certain: bool,
}

/// What the long option `--body` at `i` contributes.
pub open spec fn long_step(
    args: Seq<Tri>,
    i: int,
    options: Seq<(Seq<char>, bool)>,
    body: Seq<char>,
) -> ArgStep {
    let eq = index_of_char(body, '=');
    if eq < body.len() {
        let name = body.subrange(0, eq);
        let value = body.subrange(eq + 1, body.len() as int);
        ArgStep {
            taken: 1,
            flag: if valued(options, name) {
                Some((name, text_value(value)))
            } else {
                None
            },
            certain: true,
        }
    } else if valued(options, body) {
        ArgStep { taken: 2, flag: Some((body, value_at(args, i + 1))), certain: true }
    } else {
        ArgStep { taken: 1, flag: None, certain: known(options, body) }
    }
}

/// What the short options `-group` at `i` contribute. A group that as a whole
/// names an option with a value is that option.
pub open spec fn short_step(
    args: Seq<Tri>,
    i: int,
    options: Seq<(Seq<char>, bool)>,
    group: Seq<char>,
) -> ArgStep {
    let k = first_valued(options, group);
    let certain = forall|j: int| 0 <= j < k ==> known(options, seq![#[trigger] group[j]]);
    if group.len() > 1 && valued(options, group) {
        ArgStep { taken: 2, flag: Some((group, value_at(args, i + 1))), certain: true }
    } else if k >= group.len() {
        ArgStep { taken: 1, flag: None, certain }
    } else if k + 1 < group.len() {
        ArgStep {
            taken: 1,
            flag: Some((seq![group[k]], text_value(group.subrange(k + 1, group.len() as int)))),
            certain,
        }
    } else {
        ArgStep { taken: 2, flag: Some((seq![group[k]], value_at(args, i + 1))), certain }
    }
}

/// Whether a text is an option: a dash and something after it.
pub open spec fn is_option(s: Seq<char>) -> bool {
    s.len() > 1 && s[0] == '-'
}

/// `m` after one step. An option keeps the first value that it was given.
pub open spec fn after_step(m: ArgsModel, step: ArgStep) -> ArgsModel {
    ArgsModel {
        operands: m.operands,
        flags: match step.flag {
            Some((name, value)) => if m.flags.dom().contains(name) {
                m.flags
            } else {
                m.flags.insert(name, value)
            },
            None => m.flags,
        },
        exhaustive: m.exhaustive && step.certain,
    }
}

/// `m` after the arguments from `i` on. `past` says that a POSIX operand was
/// seen, after which nothing is an option.
pub open spec fn parse_from(
    args: Seq<Tri>,
    i: int,
    style: ArgStyle,
    options: Seq<(Seq<char>, bool)>,
    past: bool,
    m: ArgsModel,
) -> ArgsModel
    decreases args.len() + 1 - i,
{
    if i < 0 || i >= args.len() {
        m
    } else {
        match args[i] {
            Tri::Text(s) => if !past && is_option(s) {
                if s == seq!['-', '-'] {
                    ArgsModel {
                        operands: m.operands + args.subrange(i + 1, args.len() as int),
                        ..m
                    }
                } else {
                    let step = if s[1] == '-' {
                        long_step(args, i, options, s.subrange(2, s.len() as int))
                    } else {
                        short_step(args, i, options, s.subrange(1, s.len() as int))
                    };
                    let next = if step.taken == 2 {
                        i + 2
                    } else {
                        i + 1
                    };
                    parse_from(args, next, style, options, past, after_step(m, step))
                }
            } else {
                parse_from(
                    args,
                    i + 1,
                    style,
                    options,
                    style == ArgStyle::Posix,
                    ArgsModel { operands: m.operands.push(text_value(s)), ..m },
                )
            },
            Tri::Unknown => parse_from(
                args,
                i + 1,
                style,
                options,
                past,
                ArgsModel { operands: m.operands.push(Tri::Unknown), exhaustive: false, ..m },
            ),
            _ => parse_from(args, i + 1, style, options, past, m),
        }
    }
}

/// What parsing `args` yields.
pub open spec fn parsed(
    args: Seq<Tri>,
    style: ArgStyle,
    options: Seq<(Seq<char>, bool)>,
    exhaustive: bool,
) -> ArgsModel {
    parse_from(
        args,
        0,
        style,
        options,
        false,
        ArgsModel { operands: Seq::empty(), flags: Map::empty(), exhaustive },
    )
}

impl ArgSpec {
    /// Build from an optstring: `isC:` declares `i` and `s` standalone, `C` with
    /// a value.
    pub fn from_optstring(style: ArgStyle, optstring: &str) -> (r: Self)
        ensures
            r.style == style,
            options_of(r.options@) == optstring_options(optstring@),
    {
        Self { style, options: parse_optstring(optstring) }
    }

    /// Build from an optstring and long declarations such as `signal:`.
    pub fn from_optstring_long(style: ArgStyle, optstring: &str, long: &[&str]) -> (r: Self)
        ensures
            r.style == style,
            options_of(r.options@) == optstring_options(optstring@) + Seq::new(
                long@.len(),
                |i: int| long_option(long@[i]@),
            ),
    {
        let mut options = parse_optstring(optstring);
        let mut more = parse_long_opts(long);
        let ghost a = options@;
        let ghost b = more@;
        options.append(&mut more);
        assert(options_of(options@) =~= options_of(a) + options_of(b));
        Self { style, options }
    }

    /// POSIX options from an optstring.
    pub fn posix(optstring: &str) -> (r: Self)
        ensures
            r.style == ArgStyle::Posix,
            options_of(r.options@) == optstring_options(optstring@),
    {
        Self::from_optstring(ArgStyle::Posix, optstring)
    }

    /// GNU options from an optstring.
    pub fn gnu(optstring: &str) -> (r: Self)
        ensures
            r.style == ArgStyle::Gnu,
            options_of(r.options@) == optstring_options(optstring@),
    {
        Self::from_optstring(ArgStyle::Gnu, optstring)
    }

    /// The first option of that name.
    pub fn find_opt(&self, name: &str) -> (r: Option<&OptDef>)
        ensures
            match r {
                Some(o) => o.name@ == name@ && find_option(options_of(self.options@), name@)
                    == Some(o.has_arg),
                None => find_option(options_of(self.options@), name@) is None,
            },
    {
        let ghost all = options_of(self.options@);
        let mut i: usize = 0;
        assert(all.subrange(0, all.len() as int) =~= all);
        while i < self.options.len()
            invariant
                i <= self.options@.len(),
                all == options_of(self.options@),
                find_option(all, name@) == find_option(
                    all.subrange(i as int, all.len() as int),
                    name@,
                ),
            decreases self.options@.len() - i,
        {
            let ghost rest = all.subrange(i as int, all.len() as int);
            assert(rest[0] == (self.options@[i as int].name@, self.options@[i as int].has_arg));
            if str_eq(self.options[i].name.as_str(), name) {
                return Some(&self.options[i]);
            }
            assert(rest.drop_first() =~= all.subrange(i + 1, all.len() as int));
            i = i + 1;
        }
        None
    }

    /// Whether `name` is an option that takes a value.
    pub fn is_valued(&self, name: &str) -> (r: bool)
        ensures
            r == valued(options_of(self.options@), name@),
    {
        match self.find_opt(name) {
            Some(o) => o.has_arg,
            None => false,
        }
    }

    /// Whether `name` is an option.
    pub fn is_known(&self, name: &str) -> (r: bool)
        ensures
            r == known(options_of(self.options@), name@),
    {
        self.find_opt(name).is_some()
    }
}

/// The options that an optstring declares.
fn parse_optstring(s: &str) -> (r: Vec<OptDef>)
    ensures
        options_of(r@) == optstring_options(s@),
{
    let chars = chars_of(s);
    let mut opts: Vec<OptDef> = Vec::new();
    let mut i: usize = 0;
    assert(chars@.subrange(0, chars@.len() as int) =~= chars@);
    assert(options_of(opts@) + optstring_options(s@) =~= optstring_options(s@));
    while i < chars.len()
        invariant
            i <= chars@.len(),
            chars@ == s@,
            options_of(opts@) + optstring_options(chars@.subrange(i as int, chars@.len() as int))
                == optstring_options(s@),
        decreases chars@.len() - i,
    {
        let ghost rest = chars@.subrange(i as int, chars@.len() as int);
        let ghost before = opts@;
        let has_arg: bool = i + 1 < chars.len() && chars[i + 1] == ':';
        let mut name = String::new();
        name.push(chars[i]);
        assert(name@ =~= seq![rest[0]]);
        opts.push(OptDef { name, has_arg });
        assert(options_of(opts@) =~= options_of(before) + seq![(seq![rest[0]], has_arg)]);
        if has_arg {
            assert(rest.subrange(2, rest.len() as int) =~= chars@.subrange(
                i + 2,
                chars@.len() as int,
            ));
            i = i + 2;
        } else {
            assert(rest.drop_first() =~= chars@.subrange(i + 1, chars@.len() as int));
            i = i + 1;
        }
        assert(options_of(opts@) + optstring_options(
            chars@.subrange(i as int, chars@.len() as int),
        ) =~= options_of(before) + optstring_options(rest));
    }
    assert(options_of(opts@) + optstring_options(chars@.subrange(i as int, chars@.len() as int))
        =~= options_of(opts@));
    opts
}

/// The options that long declarations make.
fn parse_long_opts(list: &[&str]) -> (r: Vec<OptDef>)
    ensures
        options_of(r@) == Seq::new(list@.len(), |i: int| long_option(list@[i]@)),
{
    let mut out: Vec<OptDef> = Vec::new();
    let mut i: usize = 0;
    while i < list.len()
        invariant
            i <= list@.len(),
            out@.len() == i,
            forall|j: int|
                0 <= j < i ==> (#[trigger] out@[j]).name@ == long_option(list@[j]@).0
                    && out@[j].has_arg == long_option(list@[j]@).1,
        decreases list@.len() - i,
    {
        let chars = chars_of(list[i]);
        let n: usize = chars.len();
        if n > 0 && chars[n - 1] == ':' {
            let name = substring(chars.as_slice(), 0, n - 1);
            assert(name@ =~= chars@.drop_last());
            out.push(OptDef { name, has_arg: true });
        } else {
            out.push(OptDef { name: list[i].to_owned(), has_arg: false });
        }
        i = i + 1;
    }
    assert(options_of(out@) =~= Seq::new(list@.len(), |i: int| long_option(list@[i]@)));
    out
}

/// Result of parsing arguments.
#[derive(Debug)]
pub struct ParsedArgs {
    /// Non-option arguments, in order.
    pub operands: Vec<TriVal>,
    /// The value of each option that takes one and was given, by bare name.
    pub flags: TriMap,
    /// False if unknown options or other uncertainty degraded the parse. Then
    /// an absent option or operand is unknown rather than null.
    pub exhaustive: bool,
}

impl View for ParsedArgs {
    type V = ArgsModel;

    open spec fn view(&self) -> ArgsModel {
        ArgsModel {
            operands: tris(self.operands@),
            flags: self.flags@,
            exhaustive: self.exhaustive,
        }
    }
}

/// `s` without its leading dashes.
pub open spec fn undashed(s: Seq<char>) -> Seq<char>
    decreases s.len(),
{
    if s.len() > 0 && s[0] == '-' {
        undashed(s.drop_first())
    } else {
        s
    }
}

impl ArgsModel {
    /// What an absent option or operand is.
    pub open spec fn absent(self) -> Tri {
        if self.exhaustive {
            Tri::Null
        } else {
            Tri::Unknown
        }
    }

    /// The value of an option, named with or without dashes.
    pub open spec fn value(self, flag: Seq<char>) -> Tri {
        if self.flags.dom().contains(undashed(flag)) {
            self.flags[undashed(flag)]
        } else {
            self.absent()
        }
    }
}

/// `flag` without its leading dashes.
pub fn trim_dashes(flag: &str) -> (r: String)
    ensures
        r@ == undashed(flag@),
{
    let chars = chars_of(flag);
    let mut i: usize = 0;
    assert(chars@.subrange(0, chars@.len() as int) =~= chars@);
    while i < chars.len() && chars[i] == '-'
        invariant
            i <= chars@.len(),
            undashed(flag@) == undashed(chars@.subrange(i as int, chars@.len() as int)),
        decreases chars@.len() - i,
    {
        assert(chars@.subrange(i as int, chars@.len() as int).drop_first() =~= chars@.subrange(
            i + 1,
            chars@.len() as int,
        ));
        i = i + 1;
    }
    substring(chars.as_slice(), i, chars.len())
}

impl ParsedArgs {
    /// Value of an option, or null (exhaustive) or unknown (otherwise) if
    /// absent. Accepts the bare name (`u`) or a dashed form (`-u`, `--signal`).
    pub fn value(&self, flag: &str) -> (r: TriVal)
        ensures
            r@ == self@.value(flag@),
    {
        let name = trim_dashes(flag);
        match self.flags.get(name.as_str()) {
            Some(v) => v.clone(),
            None => self.absent(),
        }
    }

    /// The operand at `n` (from 0), or null or unknown if out of bounds.
    pub fn positional(&self, n: usize) -> (r: TriVal)
        ensures
            r@ == if n < self@.operands.len() {
                self@.operands[n as int]
            } else {
                self@.absent()
            },
    {
        if n < self.operands.len() {
            self.operands[n].clone()
        } else {
            self.absent()
        }
    }

    /// Operands from index `n` onward.
    pub fn operands_from(&self, n: usize) -> (r: Vec<TriVal>)
        ensures
            tris(r@) == if n < self@.operands.len() {
                self@.operands.subrange(n as int, self@.operands.len() as int)
            } else {
                Seq::empty()
            },
    {
        if n < self.operands.len() {
            clone_from(self.operands.as_slice(), n)
        } else {
            let r: Vec<TriVal> = Vec::new();
            assert(tris(r@) =~= Seq::<Tri>::empty());
            r
        }
    }

    /// What an absent option or operand is.
    pub fn absent(&self) -> (r: TriVal)
        ensures
            r@ == self@.absent(),
    {
            if self.exhaustive {
            TriVal::Null
        } else {
            TriVal::Unknown
        }
    }
}

/// A text as a value: unknown where it expands.
pub fn str_to_trival(s: &str) -> (r: TriVal)
    ensures
        r@ == text_value(s@),
{
    if word_has_expansion(s) {
        TriVal::Unknown
    } else {
        TriVal::String(s.to_owned())
    }
}

/// The value that the argument at `next_i` gives to an option before it.
pub fn consume_value(args: &[TriVal], next_i: usize) -> (r: TriVal)
    ensures
        r@ == value_at(tris(args@), next_i as int),
{
    if next_i >= args.len() {
        return TriVal::Null;
    }
    match &args[next_i] {
        TriVal::String(s) => str_to_trival(s.as_str()),
        other => other.clone(),
    }
}

/// What one option argument contributes.
struct Contribution {
    takes_next: bool,
    flag: Option<(String, TriVal)>,
    certain: bool,
}

impl Contribution {
    spec fn step(self) -> ArgStep {
        ArgStep {
            taken: if self.takes_next {
                2
            } else {
                1
            },
            flag: match self.flag {
                Some((name, value)) => Some((name@, value@)),
                None => None,
            },
            certain: self.certain,
        }
    }
}

/// What the long option `--body` at `i` contributes.
fn read_long(args: &[TriVal], i: usize, spec: &ArgSpec, body: &[char]) -> (r: Contribution)
    requires
        i < args@.len(),
    ensures
        r.step() == long_step(tris(args@), i as int, options_of(spec.options@), body@),
{
    let count: usize = args.len();
    assert(i + 1 <= count);
    let eq: usize = find_char(body, '=');
    if eq < body.len() {
        let name = substring(body, 0, eq);
        let flag = if spec.is_valued(name.as_str()) {
            let value = substring(body, eq + 1, body.len());
            Some((name, str_to_trival(value.as_str())))
        } else {
            None
        };
        return Contribution { takes_next: false, flag, certain: true };
    }
    let name = string_of(body);
    if spec.is_valued(name.as_str()) {
        let value = consume_value(args, i + 1);
        Contribution { takes_next: true, flag: Some((name, value)), certain: true }
    } else {
        let certain = spec.is_known(name.as_str());
        Contribution { takes_next: false, flag: None, certain }
    }
}

/// A place that holds the first short option with a value is `first_valued`.
proof fn first_valued_unique(options: Seq<(Seq<char>, bool)>, group: Seq<char>, k: int)
    requires
        0 <= k <= group.len(),
        forall|j: int| 0 <= j < k ==> !valued(options, seq![#[trigger] group[j]]),
        k < group.len() ==> valued(options, seq![group[k]]),
    ensures
        first_valued(options, group) == k,
    decreases group.len(),
{
    if k > 0 {
        let rest = group.drop_first();
        assert(!valued(options, seq![group[0]]));
        assert forall|j: int| 0 <= j < k - 1 implies !valued(
            options,
            seq![#[trigger] rest[j]],
        ) by {
            assert(rest[j] == group[j + 1]);
        }
        first_valued_unique(options, rest, k - 1);
    }
}

/// What the short options `-group` at `i` contribute.
fn read_short(args: &[TriVal], i: usize, spec: &ArgSpec, group: &[char]) -> (r: Contribution)
    requires
        i < args@.len(),
        group@.len() > 0,
    ensures
        r.step() == short_step(tris(args@), i as int, options_of(spec.options@), group@),
{
    let ghost options = options_of(spec.options@);
    let count: usize = args.len();
    let whole = string_of(group);
    if group.len() > 1 && spec.is_valued(whole.as_str()) {
        let value = consume_value(args, i + 1);
        return Contribution { takes_next: true, flag: Some((whole, value)), certain: true };
    }
    let mut certain: bool = true;
    let mut k: usize = 0;
    while k < group.len()
        invariant
            k <= group@.len(),
            i < args@.len() == count,
            options == options_of(spec.options@),
            group@.len() > 0,
            !(group@.len() > 1 && valued(options, group@)),
            forall|j: int| 0 <= j < k ==> !valued(options, seq![#[trigger] group@[j]]),
            certain == forall|j: int| 0 <= j < k ==> known(options, seq![#[trigger] group@[j]]),
        decreases group@.len() - k,
    {
        let mut name = String::new();
        name.push(group[k]);
        assert(name@ =~= seq![group@[k as int]]);
        if spec.is_valued(name.as_str()) {
            proof {
                first_valued_unique(options, group@, k as int);
            }
            if k + 1 < group.len() {
                let attached = substring(group, k + 1, group.len());
                let value = str_to_trival(attached.as_str());
                return Contribution { takes_next: false, flag: Some((name, value)), certain };
            }
            let value = consume_value(args, i + 1);
            return Contribution { takes_next: true, flag: Some((name, value)), certain };
        }
        if !spec.is_known(name.as_str()) {
            assert(!known(options, seq![group@[k as int]]));
            certain = false;
        }
        k = k + 1;
    }
    proof {
        first_valued_unique(options, group@, k as int);
    }
    Contribution { takes_next: false, flag: None, certain }
}

/// Parse arguments according to the given spec.
pub fn parse_args(args: &[TriVal], spec: &ArgSpec, exhaustive: bool) -> (r: ParsedArgs)
    ensures
        r@ == parsed(tris(args@), spec.style, options_of(spec.options@), exhaustive),
{
    let ghost all = tris(args@);
    let ghost options = options_of(spec.options@);
    let mut result = ParsedArgs { operands: Vec::new(), flags: TriMap::new(), exhaustive };
    assert(result@.operands =~= Seq::<Tri>::empty());
    let mut past: bool = false;
    let mut i: usize = 0;
    let n: usize = args.len();
    while i < n
        invariant
            n == args@.len(),
            all == tris(args@),
            options == options_of(spec.options@),
            parse_from(all, i as int, spec.style, options, past, result@) == parsed(
                all,
                spec.style,
                options,
                exhaustive,
            ),
            i <= n,
        decreases n - i,
    {
        let ghost m = result@;
        assert(all[i as int] == args@[i as int]@);
        match &args[i] {
            TriVal::String(s) => {
                let chars = chars_of(s.as_str());
                assert(all[i as int] == Tri::Text(chars@));
                if !past && chars.len() > 1 && chars[0] == '-' {
                    if chars.len() == 2 && chars[1] == '-' {
                        assert(chars@ =~= seq!['-', '-']);
                        let mut rest = clone_from(args, i + 1);
                        let ghost tail = rest@;
                        result.operands.append(&mut rest);
                        assert(tris(result.operands@) =~= m.operands + tris(tail));
                        assert(result@ == parse_from(all, i as int, spec.style, options, past, m));
                        return result;
                    }
                    let step = if chars[1] == '-' {
                        let body = copy_range(chars.as_slice(), 2, chars.len());
                        read_long(args, i, spec, body.as_slice())
                    } else {
                        let group = copy_range(chars.as_slice(), 1, chars.len());
                        read_short(args, i, spec, group.as_slice())
                    };
                    assert(chars@ != seq!['-', '-']);
                    let ghost st = step.step();
                    if !step.certain {
                        result.exhaustive = false;
                    }
                    if let Some((name, value)) = step.flag {
                        if !result.flags.contains_key(name.as_str()) {
                            result.flags.insert(name, value);
                        }
                    }
                    assert(result@ == after_step(m, st));
                    assert(parse_from(all, i as int, spec.style, options, past, m) == parse_from(
                        all,
                        i + st.taken,
                        spec.style,
                        options,
                        past,
                        result@,
                    ));
                    if step.takes_next && i + 1 < n {
                        i = i + 2;
                    } else {
                        i = i + 1;
                    }
                } else {
                    let value = str_to_trival(s.as_str());
                    proof {
                        tris_push(result.operands@, value);
                    }
                    result.operands.push(value);
                    past = spec.style == ArgStyle::Posix;
                    i = i + 1;
                }
            },
            TriVal::Unknown => {
                proof {
                    tris_push(result.operands@, TriVal::Unknown);
                }
                result.operands.push(TriVal::Unknown);
                result.exhaustive = false;
                i = i + 1;
            },
            _ => {
                i = i + 1;
            },
        }
    }
    result
}

/// Nothing restores certainty: a parse is exhaustive only if its input was.
pub proof fn certainty_only_degrades(
    args: Seq<Tri>,
    i: int,
    style: ArgStyle,
    options: Seq<(Seq<char>, bool)>,
    past: bool,
    m: ArgsModel,
)
    ensures
        parse_from(args, i, style, options, past, m).exhaustive ==> m.exhaustive,
    decreases args.len() + 1 - i,
{
    if 0 <= i < args.len() {
        match args[i] {
            Tri::Text(s) => if !past && is_option(s) {
                if s != seq!['-', '-'] {
                    let step = if s[1] == '-' {
                        long_step(args, i, options, s.subrange(2, s.len() as int))
                    } else {
                        short_step(args, i, options, s.subrange(1, s.len() as int))
                    };
                    let next = if step.taken == 2 {
                        i + 2
                    } else {
                        i + 1
                    };
                    certainty_only_degrades(args, next, style, options, past, after_step(m, step));
                }
            } else {
                certainty_only_degrades(
                    args,
                    i + 1,
                    style,
                    options,
                    style == ArgStyle::Posix,
                    ArgsModel { operands: m.operands.push(text_value(s)), ..m },
                );
            },
            Tri::Unknown => certainty_only_degrades(
                args,
                i + 1,
                style,
                options,
                past,
                ArgsModel { operands: m.operands.push(Tri::Unknown), exhaustive: false, ..m },
            ),
            _ => certainty_only_degrades(args, i + 1, style, options, past, m),
        }
    }
}

/// Only the arguments from `i` on matter to `parse_from` at `i`.
proof fn parse_ignores_prefix(
    prefix: Seq<Tri>,
    rest: Seq<Tri>,
    i: int,
    style: ArgStyle,
    options: Seq<(Seq<char>, bool)>,
    past: bool,
    m: ArgsModel,
)
    requires
        0 <= i,
    ensures
        parse_from(prefix + rest, prefix.len() + i, style, options, past, m) == parse_from(
            rest,
            i,
            style,
            options,
            past,
            m,
        ),
    decreases rest.len() + 1 - i,
{
    let all = prefix + rest;
    let at = prefix.len() + i;
    if i < rest.len() {
        assert(all[at] == rest[i]);
        match rest[i] {
            Tri::Text(s) => if !past && is_option(s) {
                if s == seq!['-', '-'] {
                    assert(all.subrange(at + 1, all.len() as int) =~= rest.subrange(
                        i + 1,
                        rest.len() as int,
                    ));
                } else {
                    assert(value_at(all, at + 1) == value_at(rest, i + 1));
                    let step = if s[1] == '-' {
                        long_step(rest, i, options, s.subrange(2, s.len() as int))
                    } else {
                        short_step(rest, i, options, s.subrange(1, s.len() as int))
                    };
                    let next = if step.taken == 2 {
                        i + 2
                    } else {
                        i + 1
                    };
                    parse_ignores_prefix(
                        prefix,
                        rest,
                        next,
                        style,
                        options,
                        past,
                        after_step(m, step),
                    );
                }
            } else {
                parse_ignores_prefix(
                    prefix,
                    rest,
                    i + 1,
                    style,
                    options,
                    style == ArgStyle::Posix,
                    ArgsModel { operands: m.operands.push(text_value(s)), ..m },
                );
            },
            Tri::Unknown => parse_ignores_prefix(
                prefix,
                rest,
                i + 1,
                style,
                options,
                past,
                ArgsModel { operands: m.operands.push(Tri::Unknown), exhaustive: false, ..m },
            ),
            _ => parse_ignores_prefix(prefix, rest, i + 1, style, options, past, m),
        }
    }
}

/// A value attached to a short option is the same as a separate one: `-uroot`
/// and `-u root` parse alike, unless `uroot` itself names an option with a
/// value.
pub proof fn attached_value_is_separate_value(
    style: ArgStyle,
    options: Seq<(Seq<char>, bool)>,
    c: char,
    value: Seq<char>,
    rest: Seq<Tri>,
    exhaustive: bool,
)
    requires
        c != '-',
        value.len() > 0,
        valued(options, seq![c]),
        !valued(options, seq![c] + value),
    ensures
        parsed(seq![Tri::Text(seq!['-', c] + value)] + rest, style, options, exhaustive) == parsed(
            seq![Tri::Text(seq!['-', c]), Tri::Text(value)] + rest,
            style,
            options,
            exhaustive,
        ),
{
    let m = ArgsModel { operands: Seq::empty(), flags: Map::empty(), exhaustive };
    let attached = seq!['-', c] + value;
    let one = seq![Tri::Text(attached)];
    let two = seq![Tri::Text(seq!['-', c]), Tri::Text(value)];
    let done = ArgsModel { flags: m.flags.insert(seq![c], text_value(value)), ..m };
    assert(is_option(attached) && attached != seq!['-', '-']);
    assert(attached[1] == c);
    let group = attached.subrange(1, attached.len() as int);
    assert(group =~= seq![c] + value);
    assert(group[0] == c);
    assert(group.subrange(1, group.len() as int) =~= value);
    assert(first_valued(options, group) == 0);
    assert((one + rest)[0] == one[0]);
    assert(after_step(m, short_step(one + rest, 0, options, group)) == done);
    parse_ignores_prefix(one, rest, 0, style, options, false, done);
    let short = seq!['-', c];
    assert(short[1] == c);
    let single = short.subrange(1, short.len() as int);
    assert(single =~= seq![c]);
    assert(first_valued(options, single) == 0);
    assert((two + rest)[0] == two[0]);
    assert((two + rest)[1] == two[1]);
    assert(after_step(m, short_step(two + rest, 0, options, single)) == done);
    parse_ignores_prefix(two, rest, 0, style, options, false, done);
}

/// `--name=value` and `--name value` parse alike for an option with a value.
pub proof fn long_value_forms_agree(
    style: ArgStyle,
    options: Seq<(Seq<char>, bool)>,
    name: Seq<char>,
    value: Seq<char>,
    rest: Seq<Tri>,
    exhaustive: bool,
)
    requires
        name.len() > 0,
        !name.contains('='),
        valued(options, name),
    ensures
        parsed(
            seq![Tri::Text(seq!['-', '-'] + name + seq!['='] + value)] + rest,
            style,
            options,
            exhaustive,
        ) == parsed(
            seq![Tri::Text(seq!['-', '-'] + name), Tri::Text(value)] + rest,
            style,
            options,
            exhaustive,
        ),
{
    let m = ArgsModel { operands: Seq::empty(), flags: Map::empty(), exhaustive };
    let done = ArgsModel { flags: m.flags.insert(name, text_value(value)), ..m };
    let joined = seq!['-', '-'] + name + seq!['='] + value;
    let one = seq![Tri::Text(joined)];
    let body = joined.subrange(2, joined.len() as int);
    assert(body =~= name + seq!['='] + value);
    assert(joined.len() > 2 && joined[0] == '-' && joined[1] == '-');
    assert(forall|j: int| 0 <= j < name.len() ==> body[j] == name[j]);
    assert forall|j: int| 0 <= j < name.len() implies body[j] != '=' by {
        assert(name.contains(name[j]));
    }
    assert(body[name.len() as int] == '=');
    crate::text::index_of_char_unique(body, '=', name.len() as int);
    assert(body.subrange(0, name.len() as int) =~= name);
    assert(body.subrange(name.len() as int + 1, body.len() as int) =~= value);
    assert((one + rest)[0] == one[0]);
    assert(after_step(m, long_step(one + rest, 0, options, body)) == done);
    parse_ignores_prefix(one, rest, 0, style, options, false, done);
    let bare = seq!['-', '-'] + name;
    let two = seq![Tri::Text(bare), Tri::Text(value)];
    assert(bare.len() > 2 && bare[0] == '-' && bare[1] == '-');
    assert(bare.subrange(2, bare.len() as int) =~= name);
    index_of_char_is_first(name, '=');
    assert((two + rest)[0] == two[0]);
    assert((two + rest)[1] == two[1]);
    assert(after_step(m, long_step(two + rest, 0, options, name)) == done);
    parse_ignores_prefix(two, rest, 0, style, options, false, done);
}

/// After `--` every argument is an operand as it stands, in both styles.
pub proof fn double_dash_ends_options(
    style: ArgStyle,
    options: Seq<(Seq<char>, bool)>,
    rest: Seq<Tri>,
    exhaustive: bool,
)
    ensures
        parsed(seq![Tri::Text(seq!['-', '-'])] + rest, style, options, exhaustive) == (ArgsModel {
            operands: rest,
            flags: Map::empty(),
            exhaustive,
        }),
{
    let all = seq![Tri::Text(seq!['-', '-'])] + rest;
    assert(all[0] == Tri::Text(seq!['-', '-']));
    assert(Seq::<Tri>::empty() + all.subrange(1, all.len() as int) =~= rest);
}

/// Once past the first operand, a POSIX parse takes every argument as an
/// operand.
proof fn posix_tail_is_operands(
    texts: Seq<Seq<char>>,
    i: int,
    options: Seq<(Seq<char>, bool)>,
    m: ArgsModel,
)
    requires
        0 <= i <= texts.len(),
    ensures
        parse_from(texts.map_values(|s: Seq<char>| Tri::Text(s)), i, ArgStyle::Posix, options, true, m)
            == (ArgsModel {
            operands: m.operands + texts.subrange(i, texts.len() as int).map_values(
                |s: Seq<char>| text_value(s),
            ),
            ..m
        }),
    decreases texts.len() - i,
{
    let rest = texts.subrange(i, texts.len() as int).map_values(|s: Seq<char>| text_value(s));
    if i < texts.len() {
        let next = ArgsModel { operands: m.operands.push(text_value(texts[i])), ..m };
        posix_tail_is_operands(texts, i + 1, options, next);
        assert(next.operands + texts.subrange(i + 1, texts.len() as int).map_values(
            |s: Seq<char>| text_value(s),
        ) =~= m.operands + rest);
    } else {
        assert(m.operands + rest =~= m.operands);
    }
}

/// POSIX option processing stops at the first operand: where the first of
/// `texts` is no option, all of them are operands and no option has a value.
pub proof fn posix_stops_at_first_operand(
    texts: Seq<Seq<char>>,
    options: Seq<(Seq<char>, bool)>,
    exhaustive: bool,
)
    requires
        texts.len() > 0,
        !is_option(texts[0]),
    ensures
        parsed(
            texts.map_values(|s: Seq<char>| Tri::Text(s)),
            ArgStyle::Posix,
            options,
            exhaustive,
        ) == (ArgsModel {
            operands: texts.map_values(|s: Seq<char>| text_value(s)),
            flags: Map::empty(),
            exhaustive,
        }),
{
    let m = ArgsModel {
        operands: Seq::<Tri>::empty().push(text_value(texts[0])),
        flags: Map::empty(),
        exhaustive,
    };
    posix_tail_is_operands(texts, 1, options, m);
    assert(m.operands + texts.subrange(1, texts.len() as int).map_values(
        |s: Seq<char>| text_value(s),
    ) =~= texts.map_values(|s: Seq<char>| text_value(s)));
}

/// An option that has a value keeps it.
proof fn parsing_keeps_values(
    args: Seq<Tri>,
    i: int,
    style: ArgStyle,
    options: Seq<(Seq<char>, bool)>,
    past: bool,
    m: ArgsModel,
    name: Seq<char>,
)
    requires
        m.flags.dom().contains(name),
    ensures
        parse_from(args, i, style, options, past, m).flags.dom().contains(name),
        parse_from(args, i, style, options, past, m).flags[name] == m.flags[name],
    decreases args.len() + 1 - i,
{
    if 0 <= i < args.len() {
        match args[i] {
            Tri::Text(s) => if !past && is_option(s) {
                if s == seq!['-', '-'] {
                } else {
                    let step = if s[1] == '-' {
                        long_step(args, i, options, s.subrange(2, s.len() as int))
                    } else {
                        short_step(args, i, options, s.subrange(1, s.len() as int))
                    };
                    let next = if step.taken == 2 {
                        i + 2
                    } else {
                        i + 1
                    };
                    let n = after_step(m, step);
                    parsing_keeps_values(args, next, style, options, past, n, name);

                }
            } else {
                let n = ArgsModel { operands: m.operands.push(text_value(s)), ..m };
                parsing_keeps_values(args, i + 1, style, options, style == ArgStyle::Posix, n, name);

            },
            Tri::Unknown => {
                let n = ArgsModel {
                    operands: m.operands.push(Tri::Unknown),
                    exhaustive: false,
                    ..m
                };
                parsing_keeps_values(args, i + 1, style, options, past, n, name);

            },
            _ => {
                parsing_keeps_values(args, i + 1, style, options, past, m, name);
            },
        }
    }
}

/// Operands are added behind those that are there, and do not depend on them.
proof fn parsing_adds_operands(
    args: Seq<Tri>,
    i: int,
    style: ArgStyle,
    options: Seq<(Seq<char>, bool)>,
    past: bool,
    m: ArgsModel,
    front: Seq<Tri>,
)
    ensures
        ({
            let r = parse_from(args, i, style, options, past, m);
            parse_from(args, i, style, options, past, with_operands(m, front + m.operands))
                == with_operands(r, front + r.operands)
        }),
    decreases args.len() + 1 - i,
{
    let other = with_operands(m, front + m.operands);
    if 0 <= i < args.len() {
        match args[i] {
            Tri::Text(s) => if !past && is_option(s) {
                if s == seq!['-', '-'] {
                    let tail = args.subrange(i + 1, args.len() as int);
                    assert(front + m.operands + tail =~= front + (m.operands + tail));
                } else {
                    let step = if s[1] == '-' {
                        long_step(args, i, options, s.subrange(2, s.len() as int))
                    } else {
                        short_step(args, i, options, s.subrange(1, s.len() as int))
                    };
                    let next = if step.taken == 2 {
                        i + 2
                    } else {
                        i + 1
                    };
                    let n = after_step(m, step);
                    parsing_adds_operands(args, next, style, options, past, n, front);
                    assert(after_step(other, step) == with_operands(n, front + n.operands));
                }
            } else {
                let n = ArgsModel { operands: m.operands.push(text_value(s)), ..m };
                parsing_adds_operands(args, i + 1, style, options, style == ArgStyle::Posix, n, front);
                assert(other.operands.push(text_value(s)) =~= front + n.operands);
            },
            Tri::Unknown => {
                let n = ArgsModel {
                    operands: m.operands.push(Tri::Unknown),
                    exhaustive: false,
                    ..m
                };
                parsing_adds_operands(args, i + 1, style, options, past, n, front);
                assert(other.operands.push(Tri::Unknown) =~= front + n.operands);
            },
            _ => {
                parsing_adds_operands(args, i + 1, style, options, past, m, front);
            },
        }
    }
}

/// A parse with other operands.
pub open spec fn with_operands(m: ArgsModel, operands: Seq<Tri>) -> ArgsModel {
    ArgsModel { operands, ..m }
}

/// The value behind a short option that takes one is the option's, and no operand:
/// what follows is parsed as if the two were not there.
pub proof fn option_takes_its_value(
    style: ArgStyle,
    options: Seq<(Seq<char>, bool)>,
    c: char,
    value: Seq<char>,
    rest: Seq<Tri>,
    exhaustive: bool,
)
    requires
        c != '-',
        valued(options, seq![c]),
        !has_expansion(value),
    ensures
        ({
            let r = parsed(
                seq![Tri::Text(seq!['-', c]), Tri::Text(value)] + rest,
                style,
                options,
                exhaustive,
            );
            &&& r.flags.dom().contains(seq![c])
            &&& r.flags[seq![c]] == Tri::Text(value)
            &&& r.operands == parse_from(
                rest,
                0,
                style,
                options,
                false,
                ArgsModel {
                    operands: Seq::empty(),
                    flags: Map::empty().insert(seq![c], Tri::Text(value)),
                    exhaustive,
                },
            ).operands
        }),
{
    let front = seq![Tri::Text(seq!['-', c]), Tri::Text(value)];
    let args = front + rest;
    let s = seq!['-', c];
    let group = s.subrange(1, 2);
    assert(group =~= seq![c]);
    assert(args[0] == Tri::Text(s) && args[1] == Tri::Text(value));
    let m = ArgsModel { operands: Seq::empty(), flags: Map::empty(), exhaustive };
    assert(s[0] == '-' && s[1] == c);
    assert(s != seq!['-', '-']) by {
        assert(seq!['-', '-'][1] == '-');
    }
    assert(group[0] == c);
    assert(first_valued(options, group) == 0);
    let step = short_step(args, 0, options, group);
    assert(value_at(args, 1) == Tri::Text(value));
    assert(step.taken == 2 && step.flag == Some((seq![c], Tri::Text(value))) && step.certain);
    let n = after_step(m, step);
    parse_ignores_prefix(front, rest, 0, style, options, false, n);
    assert(n.flags.dom().contains(seq![c]));
    parsing_keeps_values(rest, 0, style, options, false, n, seq![c]);
    assert(n.flags =~= Map::empty().insert(seq![c], Tri::Text(value)));
}

/// An option that takes no value is neither an operand nor a reason for doubt; one
/// that was not declared is a reason for doubt.
pub proof fn option_without_value_is_passed(
    style: ArgStyle,
    options: Seq<(Seq<char>, bool)>,
    c: char,
    rest: Seq<Tri>,
    exhaustive: bool,
)
    requires
        c != '-',
        !valued(options, seq![c]),
    ensures
        known(options, seq![c]) ==> parsed(
            seq![Tri::Text(seq!['-', c])] + rest,
            style,
            options,
            exhaustive,
        ) == parsed(rest, style, options, exhaustive),
        !known(options, seq![c]) ==> !parsed(
            seq![Tri::Text(seq!['-', c])] + rest,
            style,
            options,
            exhaustive,
        ).exhaustive,
{
    let front = seq![Tri::Text(seq!['-', c])];
    let args = front + rest;
    let s = seq!['-', c];
    let group = s.subrange(1, 2);
    assert(group =~= seq![c]);
    assert(args[0] == Tri::Text(s));
    let m = ArgsModel { operands: Seq::empty(), flags: Map::empty(), exhaustive };
    assert(s[0] == '-' && s[1] == c);
    assert(s != seq!['-', '-']) by {
        assert(seq!['-', '-'][1] == '-');
    }
    assert(group[0] == c);
    assert(group.drop_first() =~= Seq::<char>::empty());
    assert(first_valued(options, group.drop_first()) == 0);
    assert(first_valued(options, group) == 1);
    let step = short_step(args, 0, options, group);
    assert(step.taken == 1 && step.flag is None);
    assert(step.certain == known(options, seq![c])) by {
        if step.certain {
            assert(known(options, seq![group[0]]));
        }
    }
    let n = after_step(m, step);
    parse_ignores_prefix(front, rest, 0, style, options, false, n);
    if known(options, seq![c]) {
        assert(n == m);
    } else {
        certainty_only_degrades(rest, 0, style, options, false, n);
    }
}

/// In GNU style an operand does not end the options: it is put before the operands
/// of what follows, which is parsed as it is.
pub proof fn gnu_options_follow_operands(
    options: Seq<(Seq<char>, bool)>,
    operand: Seq<char>,
    rest: Seq<Tri>,
    exhaustive: bool,
)
    requires
        operand.len() == 0 || operand[0] != '-',
        !has_expansion(operand),
    ensures
        ({
            let r = parsed(seq![Tri::Text(operand)] + rest, ArgStyle::Gnu, options, exhaustive);
            let s = parsed(rest, ArgStyle::Gnu, options, exhaustive);
            &&& r.operands == seq![Tri::Text(operand)] + s.operands
            &&& r.flags == s.flags
            &&& r.exhaustive == s.exhaustive
        }),
{
    let front = seq![Tri::Text(operand)];
    let args = front + rest;
    assert(args[0] == Tri::Text(operand));
    let m = ArgsModel { operands: Seq::empty(), flags: Map::empty(), exhaustive };
    let n = ArgsModel { operands: m.operands.push(Tri::Text(operand)), ..m };
    parse_ignores_prefix(front, rest, 0, ArgStyle::Gnu, options, false, n);
    parsing_adds_operands(rest, 0, ArgStyle::Gnu, options, false, m, front);
    assert(n.operands =~= front + m.operands);
    assert(n == with_operands(m, front + m.operands));
}

/// An argument that is not known puts the parse in doubt.
pub proof fn unknown_argument_is_a_doubt(
    style: ArgStyle,
    options: Seq<(Seq<char>, bool)>,
    rest: Seq<Tri>,
    exhaustive: bool,
)
    ensures
        !parsed(seq![Tri::Unknown] + rest, style, options, exhaustive).exhaustive,
{
    let args = seq![Tri::Unknown] + rest;
    assert(args[0] is Unknown);
    let n = ArgsModel {
        operands: Seq::<Tri>::empty().push(Tri::Unknown),
        flags: Map::empty(),
        exhaustive: false,
    };
    certainty_only_degrades(args, 1, style, options, false, n);
}

/// An optstring: each letter, with a colon behind it where it takes a value.
pub open spec fn optstring_of(letters: Seq<(char, bool)>) -> Seq<char>
    decreases letters.len(),
{
    if letters.len() == 0 {
        Seq::empty()
    } else if letters[0].1 {
        seq![letters[0].0, ':'] + optstring_of(letters.drop_first())
    } else {
        seq![letters[0].0] + optstring_of(letters.drop_first())
    }
}

/// An optstring declares the letters that it was written of, each with a value or
/// without.
pub proof fn optstring_is_read(letters: Seq<(char, bool)>)
    requires
        forall|i: int| 0 <= i < letters.len() ==> (#[trigger] letters[i]).0 != ':',
    ensures
        optstring_options(optstring_of(letters)) == Seq::new(
            letters.len(),
            |i: int| (seq![letters[i].0], letters[i].1),
        ),
    decreases letters.len(),
{
    let s = optstring_of(letters);
    let want = Seq::new(letters.len(), |i: int| (seq![letters[i].0], letters[i].1));
    if letters.len() == 0 {
        assert(optstring_options(s) =~= want);
    } else {
        let rest = letters.drop_first();
        assert forall|i: int| 0 <= i < rest.len() implies (#[trigger] rest[i]).0 != ':' by {
            assert(letters[i + 1].0 != ':');
        }
        optstring_is_read(rest);
        let t = optstring_of(rest);
        if letters[0].1 {
            assert(s.subrange(2, s.len() as int) =~= t);
            assert(s[0] == letters[0].0 && s[1] == ':');
        } else {
            assert(s.drop_first() =~= t);
            assert(s[0] == letters[0].0);
            if s.len() >= 2 {
                assert(s[1] == t[0]);
                assert(t[0] == rest[0].0);
            }
        }
        assert(optstring_options(s) =~= want);
    }
}

/// What an option that was given a value leaves of a parse: the first value counts.
pub open spec fn with_value(m: ArgsModel, name: Seq<char>, value: Tri) -> ArgsModel {
    ArgsModel {
        flags: if m.flags.dom().contains(name) {
            m.flags
        } else {
            m.flags.insert(name, value)
        },
        ..m
    }
}

/// In a group of short options those without a value pass, and the first with one
/// takes what is left of the group or, where nothing is, the next argument.
pub proof fn grouped_options_are_read(
    args: Seq<Tri>,
    i: int,
    style: ArgStyle,
    options: Seq<(Seq<char>, bool)>,
    m: ArgsModel,
    front: Seq<char>,
    c: char,
    value: Seq<char>,
)
    requires
        0 <= i < args.len(),
        args[i] == Tri::Text(seq!['-'] + front + seq![c] + value),
        forall|j: int|
            0 <= j < front.len() ==> front[j] != '-' && find_option(options, seq![#[trigger] front[j]])
                == Some(false),
        c != '-',
        find_option(options, seq![c]) == Some(true),
        front.len() + value.len() > 0 ==> find_option(options, front + seq![c] + value) != Some(
            true,
        ),
    ensures
        value.len() > 0 && !has_expansion(value) ==> parse_from(args, i, style, options, false, m)
            == parse_from(
            args,
            i + 1,
            style,
            options,
            false,
            with_value(m, seq![c], Tri::Text(value)),
        ),
        value.len() == 0 && i + 1 < args.len() && (args[i + 1] matches Tri::Text(v)
            ==> !has_expansion(v)) ==> parse_from(args, i, style, options, false, m) == parse_from(
            args,
            i + 2,
            style,
            options,
            false,
            with_value(m, seq![c], args[i + 1]),
        ),
{
    let s = seq!['-'] + front + seq![c] + value;
    let group = front + seq![c] + value;
    let k = front.len() as int;
    assert(s.subrange(1, s.len() as int) =~= group);
    assert(s[0] == '-');
    assert(s[1] == group[0]);
    if k > 0 {
        assert(group[0] == front[0]);
        assert(front[0] != '-') by {
            assert(find_option(options, seq![front[0]]) == Some(false));
        }
    } else {
        assert(group[0] == c);
    }
    assert(s != seq!['-', '-']) by {
        assert(seq!['-', '-'][1] == '-');
    }
    first_valued_is_behind(options, front, seq![c] + value);
    assert(front + (seq![c] + value) =~= group);
    assert((seq![c] + value)[0] == c);
    assert(first_valued(options, seq![c] + value) == 0);
    assert(group[k] == c);
    assert(group.subrange(k + 1, group.len() as int) =~= value);
    assert forall|j: int| 0 <= j < k implies known(options, seq![#[trigger] group[j]]) by {
        assert(group[j] == front[j]);
        assert(find_option(options, seq![front[j]]) == Some(false));
    }
    if group.len() == 1 {
        assert(group =~= seq![c]);
    }
    let step = short_step(args, i, options, group);
    assert(step.certain);
    assert(after_step(m, step).operands == m.operands);
}

/// Letters without a value are passed in a group.
proof fn first_valued_is_behind(
    options: Seq<(Seq<char>, bool)>,
    front: Seq<char>,
    rest: Seq<char>,
)
    requires
        forall|j: int|
            0 <= j < front.len() ==> find_option(options, seq![#[trigger] front[j]]) == Some(false),
    ensures
        first_valued(options, front + rest) == front.len() + first_valued(options, rest),
    decreases front.len(),
{
    let all = front + rest;
    if front.len() > 0 {
        let fewer = front.drop_first();
        assert(all[0] == front[0]);
        assert(find_option(options, seq![front[0]]) == Some(false));
        assert(all.drop_first() =~= fewer + rest);
        assert forall|j: int| 0 <= j < fewer.len() implies find_option(
            options,
            seq![#[trigger] fewer[j]],
        ) == Some(false) by {
            assert(fewer[j] == front[j + 1]);
        }
        first_valued_is_behind(options, fewer, rest);
    } else {
        assert(all =~= rest);
    }
}

/// A long option takes what stands behind its equals sign, or else the next
/// argument; one without a value passes; and one that was not declared is a reason
/// for doubt.
pub proof fn long_options_are_read(
    args: Seq<Tri>,
    i: int,
    style: ArgStyle,
    options: Seq<(Seq<char>, bool)>,
    m: ArgsModel,
    name: Seq<char>,
    value: Seq<char>,
)
    requires
        0 <= i < args.len(),
        !name.contains('='),
        name.len() > 0,
        !has_expansion(value),
    ensures
        args[i] == Tri::Text(seq!['-', '-'] + name + seq!['='] + value) && find_option(options, name)
            == Some(true) ==> parse_from(args, i, style, options, false, m) == parse_from(
            args,
            i + 1,
            style,
            options,
            false,
            with_value(m, name, Tri::Text(value)),
        ),
        args[i] == Tri::Text(seq!['-', '-'] + name) && find_option(options, name) == Some(true) && i
            + 1 < args.len() && args[i + 1] == Tri::Text(value) ==> parse_from(
            args,
            i,
            style,
            options,
            false,
            m,
        ) == parse_from(args, i + 2, style, options, false, with_value(m, name, Tri::Text(value))),
        args[i] == Tri::Text(seq!['-', '-'] + name) && find_option(options, name) == Some(false)
            ==> parse_from(args, i, style, options, false, m) == parse_from(
            args,
            i + 1,
            style,
            options,
            false,
            m,
        ),
        args[i] == Tri::Text(seq!['-', '-'] + name) && find_option(options, name) is None
            ==> parse_from(args, i, style, options, false, m) == parse_from(
            args,
            i + 1,
            style,
            options,
            false,
            (ArgsModel { exhaustive: false, ..m }),
        ),
{
    let s = seq!['-', '-'] + name + seq!['='] + value;
    let t = seq!['-', '-'] + name;
    let n = name.len() as int;
    let body = name + seq!['='] + value;
    assert(s[0] == '-' && s[1] == '-' && t[0] == '-' && t[1] == '-');
    assert(s.len() > 2 && t.len() > 2);
    assert(s.subrange(2, s.len() as int) =~= body);
    assert(t.subrange(2, t.len() as int) =~= name);
    assert forall|j: int| 0 <= j < n implies body[j] != '=' by {
        assert(name.contains(name[j]));
        assert(body[j] == name[j]);
    }
    assert(body[n] == '=');
    crate::text::index_of_char_unique(body, '=', n);
    crate::text::index_of_char_is_first(name, '=');
    assert(body.subrange(0, n) =~= name);
    assert(body.subrange(n + 1, body.len() as int) =~= value);
}

/// An option is looked up among those that were declared; the first of its name
/// counts.
pub proof fn options_are_looked_up(
    front: Seq<(Seq<char>, bool)>,
    name: Seq<char>,
    takes_value: bool,
    rest: Seq<(Seq<char>, bool)>,
)
    requires
        forall|j: int| 0 <= j < front.len() ==> (#[trigger] front[j]).0 != name,
    ensures
        find_option(front + seq![(name, takes_value)] + rest, name) == Some(takes_value),
        find_option(front, name) is None,
    decreases front.len(),
{
    let all = front + seq![(name, takes_value)] + rest;
    if front.len() > 0 {
        let fewer = front.drop_first();
        assert(all[0] == front[0]);
        assert(front[0].0 != name);
        assert(all.drop_first() =~= fewer + seq![(name, takes_value)] + rest);
        assert forall|j: int| 0 <= j < fewer.len() implies (#[trigger] fewer[j]).0 != name by {
            assert(fewer[j] == front[j + 1]);
        }
        options_are_looked_up(fewer, name, takes_value, rest);
    } else {
        assert(all[0] == (name, takes_value));
    }
}

} // verus!
