//! Option parsing inside policy expressions: `getopt(args, valued, terminated)`.
//!
//! Options are named with their dashes. POSIX rules apply: options end at the
//! first operand. A terminated option (such as `-exec` of `find`) is recognized
//! anywhere and takes every argument up to a terminator.

use super::args::{consume_value, is_option, str_to_trival, text_value, value_at, ArgStep};
use super::value::{clone_from, tri_unfold, tris, tris_push, Tri, TriMap, TriVal};
use crate::shell::has_expansion;
use crate::text::{chars_of, copy_range, find_char, index_of_char, str_eq, substring, texts};
use vstd::prelude::*;

verus! {

broadcast use tri_unfold;

/// What option parsing yields.
pub struct GetoptModel {
    /// Non-option arguments, in order.
    pub operands: Seq<Tri>,
    /// The last value of each option that takes one and was given.
    pub flags: Map<Seq<char>, Tri>,
    /// For each terminated option, the list of its blocks of arguments.
    pub terminated: Map<Seq<char>, Tri>,
    /// Whether nothing left the parse in doubt.
    pub exhaustive: bool,
}

impl GetoptModel {
    /// The value that a policy expression sees.
    pub open spec fn as_tri(self) -> Tri {
        Tri::Object(
            Map::empty().insert(
                "operands"@,
                Tri::List { elements: self.operands, exhaustive: self.exhaustive },
            ).insert("flags"@, Tri::Object(self.flags)).insert(
                "exhaustive"@,
                Tri::Bool(self.exhaustive),
            ).insert("terminated"@, Tri::Object(self.terminated)),
        )
    }
}

/// The place of the first short option in a group that takes a value; the
/// group's length where none does.
pub open spec fn first_dashed(options: Seq<Seq<char>>, group: Seq<char>) -> int
    decreases group.len(),
{
    if group.len() == 0 || options.contains(seq!['-', group[0]]) {
        0
    } else {
        1 + first_dashed(options, group.drop_first())
    }
}

/// What the option `s` at `i` contributes. In a group such as `-xu`, a character
/// before the one that takes a value is an option that nothing is known of: it
/// might take the rest of the group itself, so the step is not certain.
pub open spec fn option_step(
    args: Seq<Tri>,
    i: int,
    options: Seq<Seq<char>>,
    s: Seq<char>,
) -> ArgStep {
    let eq = index_of_char(s, '=');
    let group = s.subrange(1, s.len() as int);
    let k = first_dashed(options, group);
    if s[1] == '-' && eq < s.len() {
        let name = s.subrange(0, eq);
        ArgStep {
            taken: 1,
            flag: if options.contains(name) {
                Some((name, text_value(s.subrange(eq + 1, s.len() as int))))
            } else {
                None
            },
            certain: true,
        }
    } else if options.contains(s) {
        ArgStep { taken: 2, flag: Some((s, value_at(args, i + 1))), certain: true }
    } else if s[1] == '-' || k >= group.len() {
        ArgStep { taken: 1, flag: None, certain: false }
    } else if k + 1 < group.len() {
        ArgStep {
            taken: 1,
            flag: Some(
                (seq!['-', group[k]], text_value(group.subrange(k + 1, group.len() as int))),
            ),
            certain: k == 0,
        }
    } else {
        ArgStep {
            taken: 2,
            flag: Some((seq!['-', group[k]], value_at(args, i + 1))),
            certain: k == 0,
        }
    }
}

/// The terminators of a terminated option; `None` where `s` is none.
pub open spec fn terminators_of(terminated: Map<Seq<char>, Tri>, s: Seq<char>) -> Option<Seq<Tri>> {
    if terminated.dom().contains(s) {
        match terminated[s] {
            Tri::List { elements, .. } => Some(elements),
            _ => None,
        }
    } else {
        None
    }
}

/// The place of the first terminator at or after `i`; the number of arguments
/// where there is none.
pub open spec fn block_end(args: Seq<Tri>, i: int, terminators: Seq<Tri>) -> int
    decreases args.len() - i,
{
    if i >= args.len() {
        args.len() as int
    } else if args[i] is Text && terminators.contains(args[i]) {
        i
    } else {
        block_end(args, i + 1, terminators)
    }
}

/// `terminated` with one more block of option `s`.
pub open spec fn with_block(
    terminated: Map<Seq<char>, Tri>,
    s: Seq<char>,
    block: Seq<Tri>,
) -> Map<Seq<char>, Tri> {
    let before = match terminators_of(terminated, s) {
        Some(blocks) => blocks,
        None => Seq::empty(),
    };
    terminated.insert(
        s,
        Tri::List {
            elements: before.push(Tri::List { elements: block, exhaustive: true }),
            exhaustive: true,
        },
    )
}

/// `m` after the arguments from `i` on. `past` says that an operand was seen.
pub open spec fn getopt_from(
    args: Seq<Tri>,
    i: int,
    options: Seq<Seq<char>>,
    terminated: Map<Seq<char>, Tri>,
    past: bool,
    m: GetoptModel,
) -> GetoptModel
    decreases args.len() + 1 - i,
    when 0 <= i
{
    if i >= args.len() {
        m
    } else {
        match args[i] {
            Tri::Text(s) => match terminators_of(terminated, s) {
                Some(terminators) => {
                    let end = block_end(args, i + 1, terminators);
                    if i + 1 <= end <= args.len() {
                        getopt_from(
                            args,
                            end + 1,
                            options,
                            terminated,
                            past,
                            GetoptModel {
                                terminated: with_block(
                                    m.terminated,
                                    s,
                                    args.subrange(i + 1, end),
                                ),
                                ..m
                            },
                        )
                    } else {
                        m
                    }
                },
                None => if !past && is_option(s) {
                    if s == seq!['-', '-'] {
                        GetoptModel {
                            operands: m.operands + args.subrange(i + 1, args.len() as int),
                            ..m
                        }
                    } else {
                        let step = option_step(args, i, options, s);
                        getopt_from(
                            args,
                            if step.taken == 2 {
                                i + 2
                            } else {
                                i + 1
                            },
                            options,
                            terminated,
                            past,
                            GetoptModel {
                                flags: match step.flag {
                                    Some((name, value)) => m.flags.insert(name, value),
                                    None => m.flags,
                                },
                                exhaustive: m.exhaustive && step.certain,
                                ..m
                            },
                        )
                    }
                } else {
                    getopt_from(
                        args,
                        i + 1,
                        options,
                        terminated,
                        true,
                        GetoptModel { operands: m.operands.push(text_value(s)), ..m },
                    )
                },
            },
            Tri::Unknown => getopt_from(
                args,
                i + 1,
                options,
                terminated,
                past,
                GetoptModel { operands: m.operands.push(Tri::Unknown), exhaustive: false, ..m },
            ),
            _ => getopt_from(args, i + 1, options, terminated, past, m),
        }
    }
}

/// What option parsing of `args` yields.
pub open spec fn getopt_of(
    args: Seq<Tri>,
    options: Seq<Seq<char>>,
    terminated: Map<Seq<char>, Tri>,
    exhaustive: bool,
) -> GetoptModel {
    getopt_from(
        args,
        0,
        options,
        terminated,
        false,
        GetoptModel {
            operands: Seq::empty(),
            flags: Map::empty(),
            terminated: Map::empty(),
            exhaustive,
        },
    )
}

/// Whether `name` is one of `options`.
pub fn has_text(options: &[String], name: &str) -> (r: bool)
    ensures
        r == texts(options@).contains(name@),
{
    let mut i: usize = 0;
    while i < options.len()
        invariant
            i <= options@.len(),
            forall|j: int| 0 <= j < i ==> (#[trigger] options@[j])@ != name@,
        decreases options@.len() - i,
    {
        if str_eq(options[i].as_str(), name) {
            assert(texts(options@)[i as int] == name@);
            return true;
        }
        i = i + 1;
    }
    assert(forall|j: int|
        0 <= j < texts(options@).len() ==> #[trigger] texts(options@)[j] == options@[j]@);
    false
}

/// What one option argument contributes.
struct Contribution {
    takes_next: bool,
    flag: Option<(String, TriVal)>,
    certain: bool,
}

impl Contribution {
    spec fn step(self) -> ArgStep {
        ArgStep {
            taken: if self.takes_next {
                2
            } else {
                1
            },
            flag: match self.flag {
                Some((name, value)) => Some((name@, value@)),
                None => None,
            },
            certain: self.certain,
        }
    }
}

/// A place that holds the first short option with a value is `first_dashed`.
proof fn first_dashed_unique(options: Seq<Seq<char>>, group: Seq<char>, k: int)
    requires
        0 <= k <= group.len(),
        forall|j: int| 0 <= j < k ==> !options.contains(seq!['-', #[trigger] group[j]]),
        k < group.len() ==> options.contains(seq!['-', group[k]]),
    ensures
        first_dashed(options, group) == k,
    decreases group.len(),
{
    if k > 0 {
        let rest = group.drop_first();
        assert(!options.contains(seq!['-', group[0]]));
        assert forall|j: int| 0 <= j < k - 1 implies !options.contains(
            seq!['-', #[trigger] rest[j]],
        ) by {
            assert(rest[j] == group[j + 1]);
        }
        first_dashed_unique(options, rest, k - 1);
    }
}

/// What the option `s` at `i` contributes.
fn read_option(args: &[TriVal], i: usize, valued: &[String], s: &str) -> (r: Contribution)
    requires
        i < args@.len(),
        is_option(s@),
    ensures
        r.step() == option_step(tris(args@), i as int, texts(valued@), s@),
{
    let ghost options = texts(valued@);
    let count: usize = args.len();
    let chars = chars_of(s);
    let eq: usize = find_char(chars.as_slice(), '=');
    if chars[1] == '-' && eq < chars.len() {
        let name = substring(chars.as_slice(), 0, eq);
        let flag = if has_text(valued, name.as_str()) {
            let value = substring(chars.as_slice(), eq + 1, chars.len());
            Some((name, str_to_trival(value.as_str())))
        } else {
            None
        };
        return Contribution { takes_next: false, flag, certain: true };
    }
    if has_text(valued, s) {
        let value = consume_value(args, i + 1);
        return Contribution { takes_next: true, flag: Some((s.to_owned(), value)), certain: true };
    }
    if chars[1] == '-' {
        return Contribution { takes_next: false, flag: None, certain: false };
    }
    let group = copy_range(chars.as_slice(), 1, chars.len());
    let mut k: usize = 0;
    while k < group.len()
        invariant
            k <= group@.len(),
            i < args@.len() == count,
            options == texts(valued@),
            is_option(s@),
            s@[1] != '-',
            !options.contains(s@),
            group@ == s@.subrange(1, s@.len() as int),
            forall|j: int| 0 <= j < k ==> !options.contains(seq!['-', #[trigger] group@[j]]),
        decreases group@.len() - k,
    {
        let mut name = String::new();
        name.push('-');
        name.push(group[k]);
        assert(name@ =~= seq!['-', group@[k as int]]);
        if has_text(valued, name.as_str()) {
            proof {
                first_dashed_unique(options, group@, k as int);
            }
            if k + 1 < group.len() {
                let attached = substring(group.as_slice(), k + 1, group.len());
                let value = str_to_trival(attached.as_str());
                return Contribution { takes_next: false, flag: Some((name, value)), certain: k == 0 };
            }
            let value = consume_value(args, i + 1);
            return Contribution { takes_next: true, flag: Some((name, value)), certain: k == 0 };
        }
        k = k + 1;
    }
    proof {
        first_dashed_unique(options, group@, k as int);
    }
    Contribution { takes_next: false, flag: None, certain: false }
}

/// Whether `s` is one of the texts in `terminators`.
pub fn is_terminator(terminators: &[TriVal], s: &str) -> (r: bool)
    ensures
        r == tris(terminators@).contains(Tri::Text(s@)),
{
    let mut i: usize = 0;
    while i < terminators.len()
        invariant
            i <= terminators@.len(),
            forall|j: int| 0 <= j < i ==> (#[trigger] terminators@[j])@ != Tri::Text(s@),
        decreases terminators@.len() - i,
    {
        if let TriVal::String(t) = &terminators[i] {
            if str_eq(t.as_str(), s) {
                assert(tris(terminators@)[i as int] == Tri::Text(s@));
                return true;
            }
        }
        i = i + 1;
    }
    assert(forall|j: int|
        0 <= j < tris(terminators@).len() ==> #[trigger] tris(terminators@)[j]
            == terminators@[j]@);
    false
}

/// The arguments from `from` up to a terminator, and the place where they end.
fn read_block(args: &[TriVal], from: usize, terminators: &[TriVal]) -> (r: (Vec<TriVal>, usize))
    requires
        from <= args@.len(),
    ensures
        r.1 == block_end(tris(args@), from as int, tris(terminators@)),
        from <= r.1 <= args@.len(),
        tris(r.0@) == tris(args@).subrange(from as int, r.1 as int),
{
    let mut block: Vec<TriVal> = Vec::new();
    let mut i: usize = from;
    assert(tris(block@) =~= tris(args@).subrange(from as int, i as int));
    while i < args.len()
        invariant
            from <= i <= args@.len(),
            block_end(tris(args@), from as int, tris(terminators@)) == block_end(
                tris(args@),
                i as int,
                tris(terminators@),
            ),
            tris(block@) == tris(args@).subrange(from as int, i as int),
        decreases args@.len() - i,
    {
        assert(tris(args@)[i as int] == args@[i as int]@);
        if let TriVal::String(s) = &args[i] {
            if is_terminator(terminators, s.as_str()) {
                return (block, i);
            }
        }
        let e = args[i].clone();
        proof {
            tris_push(block@, e);
        }
        block.push(e);
        i = i + 1;
        assert(tris(block@) =~= tris(args@).subrange(from as int, i as int));
    }
    (block, i)
}

/// Add a block of option `name`.
fn add_block(terminated: &mut TriMap, name: String, block: Vec<TriVal>)
    ensures
        final(terminated)@ == with_block(old(terminated)@, name@, tris(block@)),
{
    let mut blocks: Vec<TriVal> = match terminated.get(name.as_str()) {
        Some(TriVal::List { elements, .. }) => clone_from(elements.as_slice(), 0),
        _ => Vec::new(),
    };
    let ghost before = match terminators_of(old(terminated)@, name@) {
        Some(b) => b,
        None => Seq::empty(),
    };
    assert(tris(blocks@) =~= before);
    let entry = TriVal::List { elements: block, exhaustive: true };
    proof {
        tris_push(blocks@, entry);
    }
    blocks.push(entry);
    terminated.insert(name, TriVal::List { elements: blocks, exhaustive: true });
}

/// Parse options. Returns a map with "operands", "flags", "terminated" and
/// "exhaustive" fields.
///
/// `exhaustive` degrades to false where an argument is unknown or an option is
/// not recognized, since it might take the next argument.
pub fn run_getopt(
    args: &[TriVal],
    valued: &[String],
    terminated: &TriMap,
    exhaustive: bool,
) -> (r: TriVal)
    ensures
        r@ == getopt_of(tris(args@), texts(valued@), terminated@, exhaustive).as_tri(),
{
    let ghost all = tris(args@);
    let ghost options = texts(valued@);
    let ghost target = getopt_of(all, options, terminated@, exhaustive);
    let mut exhaustive: bool = exhaustive;
    let mut operands: Vec<TriVal> = Vec::new();
    let mut flags = TriMap::new();
    let mut blocks = TriMap::new();
    let mut past: bool = false;
    let mut i: usize = 0;
    let n: usize = args.len();
    assert(tris(operands@) =~= Seq::<Tri>::empty());
    while i < n
        invariant_except_break
            i <= n,
            target == getopt_from(
                all,
                i as int,
                options,
                terminated@,
                past,
                GetoptModel {
                    operands: tris(operands@),
                    flags: flags@,
                    terminated: blocks@,
                    exhaustive,
                },
            ),
        invariant
            n == args@.len(),
            all == tris(args@),
            options == texts(valued@),
        ensures
            target == (GetoptModel {
                operands: tris(operands@),
                flags: flags@,
                terminated: blocks@,
                exhaustive,
            }),
        decreases n - i,
    {
        let ghost m = GetoptModel {
            operands: tris(operands@),
            flags: flags@,
            terminated: blocks@,
            exhaustive,
        };
        assert(all[i as int] == args@[i as int]@);
        match &args[i] {
            TriVal::String(s) => {
                if let Some(TriVal::List { elements, .. }) = terminated.get(s.as_str()) {
                    let (block, end) = read_block(args, i + 1, elements.as_slice());
                    add_block(&mut blocks, s.clone(), block);
                    assert(target == getopt_from(
                        all,
                        end + 1,
                        options,
                        terminated@,
                        past,
                        GetoptModel { terminated: blocks@, ..m },
                    ));
                    if end < n {
                        i = end + 1;
                    } else {
                        i = end;
                    }
                } else {
                    assert(terminators_of(terminated@, s@) is None);
                    let chars = chars_of(s.as_str());
                    if !past && chars.len() > 1 && chars[0] == '-' {
                        if chars.len() == 2 && chars[1] == '-' {
                            assert(s@ =~= seq!['-', '-']);
                            let mut rest = clone_from(args, i + 1);
                            let ghost tail = rest@;
                            operands.append(&mut rest);
                            assert(tris(operands@) =~= m.operands + tris(tail));
                            break;
                        }
                        assert(s@ != seq!['-', '-']) by {
                            assert(seq!['-', '-'].len() == 2 && seq!['-', '-'][1] == '-');
                        }
                        let step = read_option(args, i, valued, s.as_str());
                        let ghost st = step.step();
                        if !step.certain {
                            exhaustive = false;
                        }
                        if let Some((name, value)) = step.flag {
                            flags.insert(name, value);
                        }
                        assert(target == getopt_from(
                            all,
                            i + st.taken,
                            options,
                            terminated@,
                            past,
                            GetoptModel {
                                operands: tris(operands@),
                                flags: flags@,
                                terminated: blocks@,
                                exhaustive,
                            },
                        ));
                        if step.takes_next && i + 1 < n {
                            i = i + 2;
                        } else {
                            i = i + 1;
                        }
                    } else {
                        past = true;
                        let value = str_to_trival(s.as_str());
                        proof {
                            tris_push(operands@, value);
                        }
                        operands.push(value);
                        i = i + 1;
                    }
                }
            },
            TriVal::Unknown => {
                exhaustive = false;
                proof {
                    tris_push(operands@, TriVal::Unknown);
                }
                operands.push(TriVal::Unknown);
                i = i + 1;
            },
            _ => {
                i = i + 1;
            },
        }
    }
    let mut result = TriMap::new();
    result.insert("operands".to_owned(), TriVal::List { elements: operands, exhaustive });
    result.insert("flags".to_owned(), TriVal::Object(flags));
    result.insert("exhaustive".to_owned(), TriVal::Bool(exhaustive));
    result.insert("terminated".to_owned(), TriVal::Object(blocks));
    TriVal::Object(result)
}

/// A doubt stays: parsing on never makes certain what was not.
pub proof fn parsing_keeps_a_doubt(
    args: Seq<Tri>,
    i: int,
    options: Seq<Seq<char>>,
    terminated: Map<Seq<char>, Tri>,
    past: bool,
    m: GetoptModel,
)
    requires
        0 <= i,
        !m.exhaustive,
    ensures
        !getopt_from(args, i, options, terminated, past, m).exhaustive,
    decreases args.len() + 1 - i,
{
    if i < args.len() {
        match args[i] {
            Tri::Text(s) => match terminators_of(terminated, s) {
                Some(terminators) => {
                    let end = block_end(args, i + 1, terminators);
                    if i + 1 <= end <= args.len() {
                        parsing_keeps_a_doubt(
                            args,
                            end + 1,
                            options,
                            terminated,
                            past,
                            GetoptModel {
                                terminated: with_block(
                                    m.terminated,
                                    s,
                                    args.subrange(i + 1, end),
                                ),
                                ..m
                            },
                        );
                    }
                },
                None => if !past && is_option(s) {
                    if s != seq!['-', '-'] {
                        let step = option_step(args, i, options, s);
                        parsing_keeps_a_doubt(
                            args,
                            if step.taken == 2 {
                                i + 2
                            } else {
                                i + 1
                            },
                            options,
                            terminated,
                            past,
                            GetoptModel {
                                flags: match step.flag {
                                    Some((name, value)) => m.flags.insert(name, value),
                                    None => m.flags,
                                },
                                exhaustive: m.exhaustive && step.certain,
                                ..m
                            },
                        );
                    }
                } else {
                    parsing_keeps_a_doubt(
                        args,
                        i + 1,
                        options,
                        terminated,
                        true,
                        GetoptModel { operands: m.operands.push(text_value(s)), ..m },
                    );
                },
            },
            Tri::Unknown => {
                parsing_keeps_a_doubt(
                    args,
                    i + 1,
                    options,
                    terminated,
                    past,
                    GetoptModel { operands: m.operands.push(Tri::Unknown), exhaustive: false, ..m },
                );
            },
            _ => {
                parsing_keeps_a_doubt(args, i + 1, options, terminated, past, m);
            },
        }
    }
}

/// An argument that is not known, and an option that nothing is known of, make the
/// parse a doubtful one.
pub proof fn unknown_is_a_doubt(
    args: Seq<Tri>,
    i: int,
    options: Seq<Seq<char>>,
    terminated: Map<Seq<char>, Tri>,
    m: GetoptModel,
    name: Seq<char>,
)
    requires
        0 <= i < args.len(),
        args[i] is Unknown || {
            &&& args[i] == Tri::Text(seq!['-', '-'] + name)
            &&& name.len() > 0
            &&& !name.contains('=')
            &&& !options.contains(seq!['-', '-'] + name)
            &&& !terminated.dom().contains(seq!['-', '-'] + name)
        },
    ensures
        !getopt_from(args, i, options, terminated, false, m).exhaustive,
{
    let s = seq!['-', '-'] + name;
    if args[i] is Unknown {
        parsing_keeps_a_doubt(
            args,
            i + 1,
            options,
            terminated,
            false,
            GetoptModel { operands: m.operands.push(Tri::Unknown), exhaustive: false, ..m },
        );
    } else {
        assert(s.len() == name.len() + 2 && s[0] == '-' && s[1] == '-');
        assert(!s.contains('=')) by {
            if s.contains('=') {
                let k = choose|k: int| 0 <= k < s.len() && s[k] == '=';
                assert(name[k - 2] == '=');
            }
        }
        crate::text::index_of_char_is_first(s, '=');
        assert(s != seq!['-', '-']);
        parsing_keeps_a_doubt(
            args,
            i + 1,
            options,
            terminated,
            false,
            GetoptModel { flags: m.flags, exhaustive: false, ..m },
        );
    }
}

/// An option that takes a value takes the argument behind it, and that argument is
/// no operand.
pub proof fn known_option_takes_the_next(
    args: Seq<Tri>,
    i: int,
    options: Seq<Seq<char>>,
    terminated: Map<Seq<char>, Tri>,
    m: GetoptModel,
    name: Seq<char>,
)
    requires
        0 <= i,
        i + 1 < args.len(),
        args[i] == Tri::Text(name),
        name.len() > 1,
        name[0] == '-',
        name != seq!['-', '-'],
        !name.contains('='),
        options.contains(name),
        !terminated.dom().contains(name),
        args[i + 1] matches Tri::Text(value) ==> !has_expansion(value),
    ensures
        getopt_from(args, i, options, terminated, false, m) == getopt_from(
            args,
            i + 2,
            options,
            terminated,
            false,
            (GetoptModel { flags: m.flags.insert(name, args[i + 1]), ..m }),
        ),
{
    crate::text::index_of_char_is_first(name, '=');
}

/// A value may also be written behind a short option, in the same word.
pub proof fn short_option_takes_the_rest(
    args: Seq<Tri>,
    i: int,
    options: Seq<Seq<char>>,
    terminated: Map<Seq<char>, Tri>,
    m: GetoptModel,
    c: char,
    value: Seq<char>,
)
    requires
        0 <= i < args.len(),
        args[i] == Tri::Text(seq!['-', c] + value),
        c != '-',
        value.len() > 0,
        !has_expansion(value),
        options.contains(seq!['-', c]),
        !options.contains(seq!['-', c] + value),
        !terminated.dom().contains(seq!['-', c] + value),
    ensures
        getopt_from(args, i, options, terminated, false, m) == getopt_from(
            args,
            i + 1,
            options,
            terminated,
            false,
            (GetoptModel { flags: m.flags.insert(seq!['-', c], Tri::Text(value)), ..m }),
        ),
{
    let s = seq!['-', c] + value;
    let group = s.subrange(1, s.len() as int);
    assert(s.len() == value.len() + 2 && s[0] == '-' && s[1] == c);
    assert(s != seq!['-', '-']);
    assert(group[0] == c);
    assert(group.subrange(1, group.len() as int) =~= value);
}

/// And behind a long one, with an equals sign between.
pub proof fn long_option_takes_the_rest(
    args: Seq<Tri>,
    i: int,
    options: Seq<Seq<char>>,
    terminated: Map<Seq<char>, Tri>,
    m: GetoptModel,
    name: Seq<char>,
    value: Seq<char>,
)
    requires
        0 <= i < args.len(),
        args[i] == Tri::Text(seq!['-', '-'] + name + seq!['='] + value),
        !name.contains('='),
        !has_expansion(value),
        options.contains(seq!['-', '-'] + name),
        !terminated.dom().contains(seq!['-', '-'] + name + seq!['='] + value),
    ensures
        getopt_from(args, i, options, terminated, false, m) == getopt_from(
            args,
            i + 1,
            options,
            terminated,
            false,
            (GetoptModel {
                flags: m.flags.insert(seq!['-', '-'] + name, Tri::Text(value)),
                ..m
            }),
        ),
{
    let s = seq!['-', '-'] + name + seq!['='] + value;
    let n = name.len() as int + 2;
    assert(s.len() == n + 1 + value.len() && s[0] == '-' && s[1] == '-' && s[n] == '=');
    assert forall|j: int| 0 <= j < n implies s[j] != '=' by {
        if j >= 2 {
            assert(s[j] == name[j - 2]);
            assert(name.contains(name[j - 2]));
        }
    }
    crate::text::index_of_char_unique(s, '=', n);
    assert(s != seq!['-', '-']);
    assert(s.subrange(0, n) =~= seq!['-', '-'] + name);
    assert(s.subrange(n + 1, s.len() as int) =~= value);
}

/// Behind `--` everything is an operand.
pub proof fn dashes_end_the_options(
    args: Seq<Tri>,
    i: int,
    options: Seq<Seq<char>>,
    terminated: Map<Seq<char>, Tri>,
    m: GetoptModel,
)
    requires
        0 <= i < args.len(),
        args[i] == Tri::Text(seq!['-', '-']),
        !terminated.dom().contains(seq!['-', '-']),
    ensures
        ({
            let g = getopt_from(args, i, options, terminated, false, m);
            &&& g.operands == m.operands + args.subrange(i + 1, args.len() as int)
            &&& g.flags == m.flags
            &&& g.exhaustive == m.exhaustive
        }),
{
}

/// Behind the first operand everything is an operand too, whatever it looks like,
/// but for the blocks of terminated options.
pub proof fn operand_ends_the_options(
    args: Seq<Tri>,
    i: int,
    options: Seq<Seq<char>>,
    terminated: Map<Seq<char>, Tri>,
    past: bool,
    m: GetoptModel,
)
    requires
        0 <= i < args.len(),
        forall|j: int|
            i <= j < args.len() ==> (#[trigger] args[j] matches Tri::Text(s)
                && !terminated.dom().contains(s) && !has_expansion(s)),
        past || !(args[i]->Text_0.len() > 1 && args[i]->Text_0[0] == '-'),
    ensures
        ({
            let g = getopt_from(args, i, options, terminated, past, m);
            &&& g.operands == m.operands + args.subrange(i, args.len() as int)
            &&& g.flags == m.flags
            &&& g.terminated == m.terminated
            &&& g.exhaustive == m.exhaustive
        }),
    decreases args.len() - i,
{
    let next = GetoptModel { operands: m.operands.push(args[i]), ..m };
    assert(args[i] is Text);
    assert(getopt_from(args, i, options, terminated, past, m) == getopt_from(
        args,
        i + 1,
        options,
        terminated,
        true,
        next,
    ));
    if i + 1 < args.len() {
        operand_ends_the_options(args, i + 1, options, terminated, true, next);
        assert(m.operands + args.subrange(i, args.len() as int) =~= next.operands + args.subrange(
            i + 1,
            args.len() as int,
        ));
    } else {
        assert(m.operands + args.subrange(i, args.len() as int) =~= next.operands);
    }
}

/// The arguments between a terminated option and the first of its terminators are
/// one block of it.
pub proof fn terminated_block_is_kept(
    args: Seq<Tri>,
    i: int,
    end: int,
    options: Seq<Seq<char>>,
    terminated: Map<Seq<char>, Tri>,
    past: bool,
    m: GetoptModel,
    s: Seq<char>,
    terminators: Seq<Tri>,
    exhaustive: bool,
)
    requires
        0 <= i < end < args.len(),
        args[i] == Tri::Text(s),
        terminated.dom().contains(s),
        terminated[s] == (Tri::List { elements: terminators, exhaustive }),
        args[end] is Text,
        terminators.contains(args[end]),
        forall|j: int| i < j < end ==> !terminators.contains(#[trigger] args[j]),
        !m.terminated.dom().contains(s),
    ensures
        getopt_from(args, i, options, terminated, past, m) == getopt_from(
            args,
            end + 1,
            options,
            terminated,
            past,
            (GetoptModel {
                terminated: m.terminated.insert(
                    s,
                    Tri::List {
                        elements: seq![
                            Tri::List { elements: args.subrange(i + 1, end), exhaustive: true },
                        ],
                        exhaustive: true,
                    },
                ),
                ..m
            }),
        ),
{
    first_terminator_ends(args, i + 1, end, terminators);
    let block = Tri::List { elements: args.subrange(i + 1, end), exhaustive: true };
    assert(Seq::<Tri>::empty().push(block) =~= seq![block]);
}

/// The end of a block is at its first terminator.
proof fn first_terminator_ends(args: Seq<Tri>, i: int, end: int, terminators: Seq<Tri>)
    requires
        0 <= i <= end < args.len(),
        args[end] is Text,
        terminators.contains(args[end]),
        forall|j: int| i <= j < end ==> !terminators.contains(#[trigger] args[j]),
    ensures
        block_end(args, i, terminators) == end,
    decreases end - i,
{
    if i < end {
        assert(!terminators.contains(args[i]));
        first_terminator_ends(args, i + 1, end, terminators);
    }
}

} // verus!
