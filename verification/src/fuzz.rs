//! Inputs for trying out the argument parser: options and arguments made of a
//! few bytes.

use crate::policy::args::{
    long_option, options_of, optstring_options, parse_args, parsed, ArgSpec, ArgStyle, ArgsModel, ParsedArgs,
};
use crate::policy::value::{tri_unfold, tris, Tri, TriVal};
use crate::text::{decimal, decimal_string, str_eq, texts};
use vstd::prelude::*;
use vstd::string::StringExecFns;

verus! {

/// The letters that options are named with.
pub const FLAG_CHARS: [char; 24] = [
    'a', 'b', 'c', 'd', 'e', 'f', 'g', 'h', 'i', 'j', 'k', 'l', 'n', 'o', 'p', 'r', 's', 't', 'u',
    'v', 'w', 'x', 'y', 'z',
];

/// Options and arguments.
#[derive(Debug, Clone, PartialEq, Eq)]
pub struct FuzzInput {
    pub opts: Vec<OptChar>,
    pub argv: Vec<Arg>,
}

/// An option.
#[derive(Debug, Clone, Copy, PartialEq, Eq, Structural)]
pub struct OptChar {
    pub idx: u8,
    pub takes_value: bool,
}

/// An argument.
#[derive(Debug, Clone, Copy, PartialEq, Eq, Structural)]
pub enum Arg {
    /// `-x`
    Flag(u8),
    /// `-xy`
    Grouped(u8, u8),
    /// `-xyz`
    Grouped3(u8, u8, u8),
    /// `-xvalN`
    Attached(u8, u8),
    /// `opN`
    Operand(u8),
    /// `--`
    DoubleDash,
    /// `-`
    Dash,
    /// `--flagx`
    LongFlag(u8),
    /// `--flagx=valN`
    LongFlagEq(u8, u8),
}

/// The letter of an index.
pub open spec fn letter(idx: u8) -> char {
    FLAG_CHARS[(idx % 24) as int]
}

/// The letter of an index.
fn char_at(idx: u8) -> (r: char)
    ensures
        r == letter(idx),
{
    FLAG_CHARS[(idx % 24) as usize]
}

/// Whether one of the first `n` options has that letter.
pub open spec fn has_letter(opts: Seq<OptChar>, n: int, c: char) -> bool {
    exists|k: int| 0 <= k < n && letter((#[trigger] opts[k]).idx) == c
}

/// The option string of the first `n` options: each letter once, with a colon
/// where the option takes a value. The first of several options counts.
pub open spec fn letters(opts: Seq<OptChar>, n: int) -> Seq<char>
    decreases n,
{
    if n <= 0 {
        Seq::empty()
    } else {
        let before = letters(opts, n - 1);
        let c = letter(opts[n - 1].idx);
        if has_letter(opts, n - 1, c) {
            before
        } else if opts[n - 1].takes_value {
            before.push(c).push(':')
        } else {
            before.push(c)
        }
    }
}

/// The flags of the first `n` options that take a value.
pub open spec fn valued(opts: Seq<OptChar>, n: int) -> Seq<Seq<char>>
    decreases n,
{
    if n <= 0 {
        Seq::empty()
    } else {
        let before = valued(opts, n - 1);
        let c = letter(opts[n - 1].idx);
        if !has_letter(opts, n - 1, c) && opts[n - 1].takes_value {
            before.push(seq!['-', c])
        } else {
            before
        }
    }
}

/// The text of an argument.
pub open spec fn arg_text(a: Arg) -> Seq<char> {
    match a {
        Arg::Flag(i) => seq!['-', letter(i)],
        Arg::Grouped(i, j) => seq!['-', letter(i), letter(j)],
        Arg::Grouped3(i, j, k) => seq!['-', letter(i), letter(j), letter(k)],
        Arg::Attached(i, v) => seq!['-', letter(i)] + "val"@ + decimal((v % 100) as nat),
        Arg::Operand(n) => "op"@ + decimal((n % 100) as nat),
        Arg::DoubleDash => "--"@,
        Arg::Dash => "-"@,
        Arg::LongFlag(i) => "--flag"@.push(letter(i)),
        Arg::LongFlagEq(i, v) => "--flag"@.push(letter(i)) + "=val"@ + decimal((v % 100) as nat),
    }
}

/// The letter of a long flag, and whether it has a value; none for another
/// argument.
pub open spec fn long_flag(a: Arg) -> Option<(char, bool)> {
    match a {
        Arg::LongFlag(i) => Some((letter(i), false)),
        Arg::LongFlagEq(i, _) => Some((letter(i), true)),
        _ => None,
    }
}

/// Whether one of the first `n` arguments is a long flag with that letter.
pub open spec fn has_long(argv: Seq<Arg>, n: int, c: char) -> bool {
    exists|k: int|
        0 <= k < n && (long_flag(#[trigger] argv[k]) matches Some((d, _)) && c == d)
}

/// The long options in the first `n` arguments, each once, and whether the first
/// of its kind has a value.
pub open spec fn long_names(argv: Seq<Arg>, n: int) -> Seq<(Seq<char>, bool)>
    decreases n,
{
    if n <= 0 {
        Seq::empty()
    } else {
        let before = long_names(argv, n - 1);
        match long_flag(argv[n - 1]) {
            Some((c, value)) => if has_long(argv, n - 1, c) {
                before
            } else {
                before.push(("flag"@.push(c), value))
            },
            None => before,
        }
    }
}

/// Append a character.
fn append_char(out: &mut String, c: char)
    ensures
        final(out)@ == old(out)@.push(c),
{
    out.push(c);
}

/// Append a number below 100.
fn append_small(out: &mut String, v: u8)
    ensures
        final(out)@ == old(out)@ + decimal((v % 100) as nat),
{
    let digits = decimal_string((v % 100) as u64);
    out.append(digits.as_str());
}

/// The text of an argument.
fn arg_string(a: &Arg) -> (r: String)
    ensures
        r@ == arg_text(*a),
{
    let mut out = String::new();
    match a {
        Arg::Flag(i) => {
            append_char(&mut out, '-');
            append_char(&mut out, char_at(*i));
        },
        Arg::Grouped(i, j) => {
            append_char(&mut out, '-');
            append_char(&mut out, char_at(*i));
            append_char(&mut out, char_at(*j));
        },
        Arg::Grouped3(i, j, k) => {
            append_char(&mut out, '-');
            append_char(&mut out, char_at(*i));
            append_char(&mut out, char_at(*j));
            append_char(&mut out, char_at(*k));
        },
        Arg::Attached(i, v) => {
            append_char(&mut out, '-');
            append_char(&mut out, char_at(*i));
            out.append("val");
            append_small(&mut out, *v);
        },
        Arg::Operand(n) => {
            out.append("op");
            append_small(&mut out, *n);
        },
        Arg::DoubleDash => {
            out.append("--");
        },
        Arg::Dash => {
            out.append("-");
        },
        Arg::LongFlag(i) => {
            out.append("--flag");
            append_char(&mut out, char_at(*i));
        },
        Arg::LongFlagEq(i, v) => {
            out.append("--flag");
            append_char(&mut out, char_at(*i));
            out.append("=val");
            append_small(&mut out, *v);
        },
    }
    assert(out@ =~= arg_text(*a));
    out
}

impl FuzzInput {
    /// Whether one of the first `n` options has that letter.
    fn seen(&self, n: usize, c: char) -> (r: bool)
        requires
            n <= self.opts@.len(),
        ensures
            r == has_letter(self.opts@, n as int, c),
    {
        let mut k: usize = 0;
        while k < n
            invariant
                k <= n <= self.opts@.len(),
                forall|j: int| 0 <= j < k ==> letter((#[trigger] self.opts@[j]).idx) != c,
            decreases n - k,
        {
            if char_at(self.opts[k].idx) == c {
                assert(letter(self.opts@[k as int].idx) == c);
                return true;
            }
            k = k + 1;
        }
        false
    }

    /// The option string, as getopt takes it. Without options it is that of one
    /// option.
    pub fn optstring(&self) -> (r: String)
        ensures
            r@ == optstring_of(*self),
    {
        let n: usize = self.opts.len();
        let mut out = String::new();
        let mut i: usize = 0;
        assert(out@ =~= letters(self.opts@, 0));
        while i < n
            invariant
                i <= n == self.opts@.len(),
                out@ == letters(self.opts@, i as int),
            decreases n - i,
        {
            let c: char = char_at(self.opts[i].idx);
            if !self.seen(i, c) {
                append_char(&mut out, c);
                if self.opts[i].takes_value {
                    append_char(&mut out, ':');
                }
            }
            i = i + 1;
        }
        if out.as_str().is_empty() {
            out.append("a");
            assert(out@ =~= "a"@);
        }
        out
    }

    /// The flags that take a value.
    pub fn valued_flags(&self) -> (r: Vec<String>)
        ensures
            texts(r@) == valued(self.opts@, self.opts@.len() as int),
    {
        let n: usize = self.opts.len();
        let mut out: Vec<String> = Vec::new();
        let mut i: usize = 0;
        assert(texts(out@) =~= valued(self.opts@, 0));
        while i < n
            invariant
                i <= n == self.opts@.len(),
                texts(out@) == valued(self.opts@, i as int),
            decreases n - i,
        {
            let c: char = char_at(self.opts[i].idx);
            let ghost before = texts(out@);
            if !self.seen(i, c) && self.opts[i].takes_value {
                let mut flag = String::new();
                append_char(&mut flag, '-');
                append_char(&mut flag, c);
                assert(flag@ =~= seq!['-', c]);
                out.push(flag);
                assert(texts(out@) =~= before.push(seq!['-', c]));
            }
            i = i + 1;
        }
        out
    }

    /// The arguments.
    pub fn argv_strings(&self) -> (r: Vec<String>)
        ensures
            texts(r@) == Seq::new(self.argv@.len(), |i: int| arg_text(self.argv@[i])),
    {
        let n: usize = self.argv.len();
        let mut out: Vec<String> = Vec::new();
        let mut i: usize = 0;
        while i < n
            invariant
                i <= n == self.argv@.len(),
                out@.len() == i,
                forall|k: int| 0 <= k < i ==> (#[trigger] out@[k])@ == arg_text(self.argv@[k]),
            decreases n - i,
        {
            out.push(arg_string(&self.argv[i]));
            i = i + 1;
        }
        assert(texts(out@) =~= Seq::new(self.argv@.len(), |i: int| arg_text(self.argv@[i])));
        out
    }

    /// Whether one of the arguments is a long flag.
    pub fn has_long_flags(&self) -> (r: bool)
        ensures
            r == exists|k: int|
                0 <= k < self.argv@.len() && long_flag(#[trigger] self.argv@[k]) is Some,
    {
        let mut k: usize = 0;
        while k < self.argv.len()
            invariant
                k <= self.argv@.len(),
                forall|j: int| 0 <= j < k ==> long_flag(#[trigger] self.argv@[j]) is None,
            decreases self.argv.len() - k,
        {
            match self.argv[k] {
                Arg::LongFlag(_) | Arg::LongFlagEq(_, _) => {
                    assert(long_flag(self.argv@[k as int]) is Some);
                    return true;
                },
                _ => {},
            }
            k = k + 1;
        }
        false
    }

    /// Whether one of the first `n` arguments is a long flag with that letter.
    fn seen_long(&self, n: usize, c: char) -> (r: bool)
        requires
            n <= self.argv@.len(),
        ensures
            r == has_long(self.argv@, n as int, c),
    {
        let mut k: usize = 0;
        while k < n
            invariant
                k <= n <= self.argv@.len(),
                forall|j: int|
                    0 <= j < k ==> !(long_flag(#[trigger] self.argv@[j]) matches Some((d, _)) && c
                        == d),
            decreases n - k,
        {
            let d: char = match self.argv[k] {
                Arg::LongFlag(i) => char_at(i),
                Arg::LongFlagEq(i, _) => char_at(i),
                _ => ' ',
            };
            let is_long: bool = match self.argv[k] {
                Arg::LongFlag(_) | Arg::LongFlagEq(_, _) => true,
                _ => false,
            };
            if is_long && d == c {
                assert(long_flag(self.argv@[k as int]) is Some);
                return true;
            }
            k = k + 1;
        }
        false
    }

    /// The long options among the arguments, each with whether it takes a value.
    pub fn long_options(&self) -> (r: Vec<(String, bool)>)
        ensures
            r@.map_values(|o: (String, bool)| (o.0@, o.1)) == long_names(
                self.argv@,
                self.argv@.len() as int,
            ),
    {
        let n: usize = self.argv.len();
        let mut out: Vec<(String, bool)> = Vec::new();
        let mut i: usize = 0;
        let ghost plain = |o: (String, bool)| (o.0@, o.1);
        assert(out@.map_values(plain) =~= long_names(self.argv@, 0));
        while i < n
            invariant
                i <= n == self.argv@.len(),
                plain == (|o: (String, bool)| (o.0@, o.1)),
                out@.map_values(plain) == long_names(self.argv@, i as int),
            decreases n - i,
        {
            let found: Option<(char, bool)> = match self.argv[i] {
                Arg::LongFlag(k) => Some((char_at(k), false)),
                Arg::LongFlagEq(k, _) => Some((char_at(k), true)),
                _ => None,
            };
            let ghost before = out@.map_values(plain);
            if let Some((c, value)) = found {
                if !self.seen_long(i, c) {
                    let mut name = "flag".to_owned();
                    append_char(&mut name, c);
                    let ghost text = name@;
                    out.push((name, value));
                    assert(out@.map_values(plain) =~= before.push((text, value)));
                }
            }
            i = i + 1;
        }
        out
    }
}

/// What another parser made of the arguments: the options in order with their
/// values, and the operands.
#[derive(Debug, Clone, PartialEq, Eq)]
pub struct RefResult {
    pub flags: Vec<(String, Option<String>)>,
    pub operands: Vec<String>,
}

/// The declaration of a long option.
pub open spec fn declaration(option: (Seq<char>, bool)) -> Seq<char> {
    if option.1 {
        option.0 + ":"@
    } else {
        option.0
    }
}

/// The option string of an input.
pub open spec fn optstring_of(input: FuzzInput) -> Seq<char> {
    let all = letters(input.opts@, input.opts@.len() as int);
    if all.len() == 0 {
        "a"@
    } else {
        all
    }
}

/// The options that an input declares.
pub open spec fn options_in(input: FuzzInput) -> Seq<(Seq<char>, bool)> {
    let long = long_names(input.argv@, input.argv@.len() as int);
    optstring_options(optstring_of(input)) + Seq::new(
        long.len(),
        |i: int| long_option(declaration(long[i])),
    )
}

/// The arguments of an input as values.
pub open spec fn argv_values(input: FuzzInput) -> Seq<Tri> {
    Seq::new(input.argv@.len(), |i: int| Tri::Text(arg_text(input.argv@[i])))
}

/// The texts among values.
pub open spec fn texts_among(values: Seq<Tri>) -> Seq<Seq<char>>
    decreases values.len(),
{
    if values.len() == 0 {
        Seq::empty()
    } else {
        let before = texts_among(values.drop_last());
        match values.last() {
            Tri::Text(s) => before.push(s),
            _ => before,
        }
    }
}

/// Whether a flag occurs at no other place than `i`.
pub open spec fn occurs_once(flags: Seq<(String, Option<String>)>, i: int) -> bool {
    forall|j: int| 0 <= j < flags.len() && j != i ==> (#[trigger] flags[j]).0@ != flags[i].0@
}

/// Whether the value of the flag at `i`, if it has one and occurs once, is what
/// was parsed.
pub open spec fn flag_agrees(ours: ArgsModel, flags: Seq<(String, Option<String>)>, i: int) -> bool {
    match flags[i].1 {
        Some(v) => occurs_once(flags, i) ==> ours.value(flags[i].0@) == Tri::Text(v@),
        None => true,
    }
}

/// Whether the argument parser and another one agree on an input: on the operands,
/// and on the values of the flags that occur once. A large input is not looked at.
pub open spec fn agrees(style: ArgStyle, input: FuzzInput, other: RefResult) -> bool {
    let ours = parsed(argv_values(input), style, options_in(input), true);
    input.argv@.len() > 32 || input.opts@.len() > 16 || (texts_among(ours.operands) == texts(
        other.operands@,
    ) && forall|i: int|
        0 <= i < other.flags@.len() ==> #[trigger] flag_agrees(ours, other.flags@, i))
}

/// Parse the arguments of an input with the options that it declares.
pub fn parse_input(style: ArgStyle, input: &FuzzInput) -> (r: ParsedArgs)
    ensures
        r@ == parsed(argv_values(*input), style, options_in(*input), true),
{
    let optstring = input.optstring();
    let long = input.long_options();
    let ghost names = long_names(input.argv@, input.argv@.len() as int);
    let ghost plain = |o: (String, bool)| (o.0@, o.1);
    assert(long@.map_values(plain) == names);
    let n: usize = long.len();
    let mut declared: Vec<String> = Vec::new();
    let mut i: usize = 0;
    while i < n
        invariant
            i <= n == long@.len() == names.len(),
            plain == (|o: (String, bool)| (o.0@, o.1)),
            long@.map_values(plain) == names,
            declared@.len() == i,
            forall|k: int| 0 <= k < i ==> (#[trigger] declared@[k])@ == declaration(names[k]),
        decreases n - i,
    {
        let mut text = long[i].0.as_str().to_owned();
        assert(names[i as int] == plain(long@[i as int]));
        if long[i].1 {
            text.append(":");
        }
        declared.push(text);
        i = i + 1;
    }
    let mut slices: Vec<&str> = Vec::new();
    let mut k: usize = 0;
    while k < n
        invariant
            k <= n == declared@.len() == names.len(),
            forall|j: int| 0 <= j < n ==> (#[trigger] declared@[j])@ == declaration(names[j]),
            slices@.len() == k,
            forall|j: int| 0 <= j < k ==> (#[trigger] slices@[j])@ == declaration(names[j]),
        decreases n - k,
    {
        slices.push(declared[k].as_str());
        k = k + 1;
    }
    let spec = ArgSpec::from_optstring_long(style, optstring.as_str(), slices.as_slice());
    assert(options_of(spec.options@) =~= options_in(*input));
    let argv = input.argv_strings();
    let ghost words = texts(argv@);
    let m: usize = argv.len();
    let mut values: Vec<TriVal> = Vec::new();
    let mut j: usize = 0;
    while j < m
        invariant
            j <= m == argv@.len(),
            words == texts(argv@),
            values@.len() == j,
            forall|q: int| 0 <= q < j ==> (#[trigger] values@[q])@ == Tri::Text(words[q]),
        decreases m - j,
    {
        let value = TriVal::String(argv[j].as_str().to_owned());
        proof {
            tri_unfold(value);
        }
        values.push(value);
        j = j + 1;
    }
    proof {
        let given = argv_values(*input);
        assert(words.len() == input.argv@.len());
        assert forall|q: int| 0 <= q < given.len() implies tris(values@)[q] == given[q] by {
            assert(words[q] == arg_text(input.argv@[q]));
            assert(values@[q]@ == Tri::Text(words[q]));
        }
        assert(tris(values@) =~= given);
    }
    parse_args(values.as_slice(), &spec, true)
}

/// The texts among values.
fn collect_texts(values: &Vec<TriVal>) -> (r: Vec<String>)
    ensures
        texts(r@) == texts_among(tris(values@)),
{
    let ghost all = tris(values@);
    let n: usize = values.len();
    let mut out: Vec<String> = Vec::new();
    let mut i: usize = 0;
    assert(texts(out@) =~= texts_among(all.subrange(0, 0)));
    while i < n
        invariant
            i <= n == values@.len(),
            all == tris(values@),
            texts(out@) == texts_among(all.subrange(0, i as int)),
        decreases n - i,
    {
        let ghost next = all.subrange(0, i + 1);
        let ghost before = texts(out@);
        proof {
            assert(next.drop_last() =~= all.subrange(0, i as int));
            assert(next.last() == values@[i as int]@);
            tri_unfold(values@[i as int]);
        }
        if let TriVal::String(s) = &values[i] {
            out.push(s.as_str().to_owned());
            assert(texts(out@) =~= before.push(s@));
        }
        i = i + 1;
    }
    assert(all.subrange(0, n as int) =~= all);
    out
}

/// Whether two lists of texts are equal.
fn same_texts(a: &Vec<String>, b: &Vec<String>) -> (r: bool)
    ensures
        r == (texts(a@) == texts(b@)),
{
    let n: usize = a.len();
    if n != b.len() {
        assert(texts(a@).len() != texts(b@).len());
        return false;
    }
    let mut i: usize = 0;
    while i < n
        invariant
            i <= n == a@.len() == b@.len(),
            forall|k: int| 0 <= k < i ==> (#[trigger] a@[k])@ == b@[k]@,
        decreases n - i,
    {
        if !str_eq(a[i].as_str(), b[i].as_str()) {
            assert(texts(a@)[i as int] != texts(b@)[i as int]);
            return false;
        }
        i = i + 1;
    }
    assert(texts(a@) =~= texts(b@));
    true
}

/// Whether the flag at `i` occurs at no other place.
fn is_single(flags: &Vec<(String, Option<String>)>, i: usize) -> (r: bool)
    requires
        i < flags@.len(),
    ensures
        r == occurs_once(flags@, i as int),
{
    let n: usize = flags.len();
    let mut j: usize = 0;
    while j < n
        invariant
            j <= n == flags@.len(),
            i < n,
            forall|k: int| 0 <= k < j && k != i ==> (#[trigger] flags@[k]).0@ != flags@[i as int].0@,
        decreases n - j,
    {
        if j != i && str_eq(flags[j].0.as_str(), flags[i].0.as_str()) {
            assert(flags@[j as int].0@ == flags@[i as int].0@);
            return false;
        }
        j = j + 1;
    }
    true
}

/// Compare what the argument parser and another one make of an input.
pub fn compare_structured(style: ArgStyle, input: &FuzzInput, other: &RefResult) -> (r: bool)
    ensures
        r == agrees(style, *input, *other),
{
    if input.argv.len() > 32 || input.opts.len() > 16 {
        return true;
    }
    let ours = parse_input(style, input);
    let operands = collect_texts(&ours.operands);
    if !same_texts(&operands, &other.operands) {
        return false;
    }
    let n: usize = other.flags.len();
    let mut i: usize = 0;
    while i < n
        invariant
            i <= n == other.flags@.len(),
            input.argv@.len() <= 32,
            input.opts@.len() <= 16,
            ours@ == parsed(argv_values(*input), style, options_in(*input), true),
            forall|k: int| 0 <= k < i ==> #[trigger] flag_agrees(ours@, other.flags@, k),
        decreases n - i,
    {
        if let Some(v) = &other.flags[i].1 {
            if is_single(&other.flags, i) {
                let value = ours.value(other.flags[i].0.as_str());
                proof {
                    tri_unfold(value);
                }
                let same = match &value {
                    TriVal::String(s) => str_eq(s.as_str(), v.as_str()),
                    _ => false,
                };
                if !same {
                    assert(!flag_agrees(ours@, other.flags@, i as int));
                    return false;
                }
            }
        }
        assert(flag_agrees(ours@, other.flags@, i as int));
        i = i + 1;
    }
    true
}

/// The option string declares every option, by its letter, and nothing else; the
/// flag of an option is among those with a value exactly where the first option of
/// its letter takes one.
pub proof fn every_option_is_declared(opts: Seq<OptChar>, n: int, c: char)
    requires
        0 <= n <= opts.len(),
        c != ':',
    ensures
        letters(opts, n).contains(c) <==> exists|k: int|
            0 <= k < n && letter((#[trigger] opts[k]).idx) == c,
        valued(opts, n).contains(seq!['-', c]) <==> exists|k: int|
            0 <= k < n && letter((#[trigger] opts[k]).idx) == c && opts[k].takes_value && forall|
                j: int,
            |
                0 <= j < k ==> letter((#[trigger] opts[j]).idx) != c,
    decreases n,
{
    if n > 0 {
        every_option_is_declared(opts, n - 1, c);
        let d = letter(opts[n - 1].idx);
        let before = letters(opts, n - 1);
        let now = letters(opts, n);
        let flags = valued(opts, n - 1);
        let more = valued(opts, n);
        if before.contains(c) {
            let i = choose|i: int| 0 <= i < before.len() && before[i] == c;
            assert(now[i] == c);
        }
        if now.contains(c) && !before.contains(c) {
            let i = choose|i: int| 0 <= i < now.len() && now[i] == c;
            if i < before.len() {
                assert(before[i] == c);
            }
            assert(letter(opts[n - 1].idx) == c);
        }
        if d == c && !has_letter(opts, n - 1, c) {
            assert(now[before.len() as int] == c);
        }
        if flags.contains(seq!['-', c]) {
            let i = choose|i: int| 0 <= i < flags.len() && flags[i] == seq!['-', c];
            assert(more[i] == seq!['-', c]);
            let k = choose|k: int|
                0 <= k < n - 1 && letter((#[trigger] opts[k]).idx) == c && opts[k].takes_value
                    && forall|j: int| 0 <= j < k ==> letter((#[trigger] opts[j]).idx) != c;
            assert(letter(opts[k].idx) == c);
        } else if more.contains(seq!['-', c]) {
            let i = choose|i: int| 0 <= i < more.len() && more[i] == seq!['-', c];
            if i < flags.len() {
                assert(flags[i] == seq!['-', c]);
            }
            assert(seq!['-', d][1] == d && seq!['-', c][1] == c);
            assert(letter(opts[n - 1].idx) == c);
        }
        if d == c && !has_letter(opts, n - 1, c) && opts[n - 1].takes_value {
            assert(more[flags.len() as int] == seq!['-', c]);
        }
    }
}

/// Every long flag among the arguments is declared, once, and with a value where
/// the first of its letter has one.
pub proof fn every_long_flag_is_declared(argv: Seq<Arg>, n: int, k: int, c: char, value: bool)
    requires
        0 <= k < n <= argv.len(),
        long_flag(argv[k]) == Some((c, value)),
        forall|j: int| 0 <= j < k ==> !(long_flag(#[trigger] argv[j]) matches Some((d, _)) && d == c),
    ensures
        long_names(argv, n).contains(("flag"@.push(c), value)),
    decreases n,
{
    let before = long_names(argv, n - 1);
    let now = long_names(argv, n);
    let e = ("flag"@.push(c), value);
    if k < n - 1 {
        every_long_flag_is_declared(argv, n - 1, k, c, value);
        let i = choose|i: int| 0 <= i < before.len() && before[i] == e;
        assert(now[i] == e);
    } else {
        assert(!has_long(argv, n - 1, c));
        assert(now[before.len() as int] == e);
    }
}

/// Parsers that agree have the same operands, and the same value for a flag that
/// was given once.
pub proof fn agreement_is_about_the_same(
    style: ArgStyle,
    input: FuzzInput,
    other: RefResult,
    operands: Seq<Seq<char>>,
    i: int,
)
    requires
        agrees(style, input, other),
        input.argv@.len() <= 32,
        input.opts@.len() <= 16,
        parsed(argv_values(input), style, options_in(input), true).operands == Seq::new(
            operands.len(),
            |k: int| Tri::Text(operands[k]),
        ),
    ensures
        texts(other.operands@) == operands,
        0 <= i < other.flags@.len() && (forall|j: int|
            0 <= j < other.flags@.len() && j != i ==> (#[trigger] other.flags@[j]).0@
                != other.flags@[i].0@) && other.flags@[i].1 is Some ==> parsed(
            argv_values(input),
            style,
            options_in(input),
            true,
        ).value(other.flags@[i].0@) == Tri::Text((other.flags@[i].1->0)@),
{
    texts_are_kept(operands);
    let ours = parsed(argv_values(input), style, options_in(input), true);
    if 0 <= i < other.flags@.len() {
        assert(flag_agrees(ours, other.flags@, i));
    }
}

/// Of values that are all texts, all texts are kept.
proof fn texts_are_kept(t: Seq<Seq<char>>)
    ensures
        texts_among(Seq::new(t.len(), |k: int| Tri::Text(t[k]))) == t,
    decreases t.len(),
{
    let values = Seq::new(t.len(), |k: int| Tri::Text(t[k]));
    if t.len() > 0 {
        let front = t.drop_last();
        texts_are_kept(front);
        assert(values.drop_last() =~= Seq::new(front.len(), |k: int| Tri::Text(front[k])));
        assert(front.push(t.last()) =~= t);
    } else {
        assert(texts_among(values) =~= t);
    }
}

} // verus!
