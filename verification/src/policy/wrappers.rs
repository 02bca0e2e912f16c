//! Wrappers ready for matching: their expressions parsed, their options read.

use super::args::{options_of, ArgSpec, ArgStyle};
use super::cel::{parse_cel, cel_of, CelExpr};
use super::config::{wrapper_texts, TaggedWrapper, WrapperConfig, WrapperText};
use crate::text::opt_text;
use vstd::prelude::*;

verus! {

/// A wrapper, ready for matching and extraction.
#[derive(Debug)]
pub struct CompiledWrapper {
    pub name: String,
    pub when: CelExpr,
    pub getopt: Option<ArgSpec>,
    pub inner: CelExpr,
    pub capture_user: Option<CelExpr>,
    pub capture_host: Option<CelExpr>,
    pub skip_wrapper: bool,
    pub args_complete: bool,
    pub changes_cwd: bool,
}

/// A compiled wrapper, mathematically.
pub ghost struct WrapperModel {
    pub name: Seq<char>,
    pub when: CelExpr,
    pub getopt: Option<(ArgStyle, Seq<(Seq<char>, bool)>)>,
    pub inner: CelExpr,
    pub capture_user: Option<CelExpr>,
    pub capture_host: Option<CelExpr>,
    pub skip_wrapper: bool,
    pub args_complete: bool,
    pub changes_cwd: bool,
}

impl View for CompiledWrapper {
    type V = WrapperModel;

    open spec fn view(&self) -> WrapperModel {
        WrapperModel {
            name: self.name@,
            when: self.when,
            getopt: match self.getopt {
                Some(spec) => Some((spec.style, options_of(spec.options@))),
                None => None,
            },
            inner: self.inner,
            capture_user: self.capture_user,
            capture_host: self.capture_host,
            skip_wrapper: self.skip_wrapper,
            args_complete: self.args_complete,
            changes_cwd: self.changes_cwd,
        }
    }
}

/// Wrappers in the order in which they are tried. The first match wins.
#[derive(Debug)]
pub struct WrapperRegistry {
    pub wrappers: Vec<CompiledWrapper>,
}

impl View for WrapperRegistry {
    type V = Seq<WrapperModel>;

    open spec fn view(&self) -> Seq<WrapperModel> {
        Seq::new(self.wrappers@.len(), |i: int| self.wrappers@[i]@)
    }
}

impl WrapperRegistry {
    /// No wrappers.
    pub fn empty() -> (r: Self)
        ensures
            r@ == Seq::<WrapperModel>::empty(),
    {
        let r = Self { wrappers: Vec::new() };
        assert(r@ =~= Seq::<WrapperModel>::empty());
        r
    }
}

/// The expression that an optional text parses to; none where it does not.
pub open spec fn captured(text: Option<Seq<char>>) -> Option<CelExpr> {
    match text {
        Some(t) => match cel_of(t) {
            Ok(e) => Some(e),
            Err(_) => None,
        },
        None => None,
    }
}

/// What a configured wrapper compiles to; `None` where its `when` or `inner`
/// does not parse.
pub open spec fn wrapper_of(w: WrapperText) -> Option<WrapperModel> {
    match (cel_of(w.when), cel_of(w.inner)) {
        (Ok(when), Ok(inner)) => Some(
            WrapperModel {
                name: w.name,
                when,
                getopt: w.getopt,
                inner,
                capture_user: captured(w.capture_user),
                capture_host: captured(w.capture_host),
                skip_wrapper: w.skip_wrapper,
                args_complete: w.args_complete,
                changes_cwd: w.changes_cwd,
            },
        ),
        _ => None,
    }
}

/// What the first `n` configured wrappers compile to, invalid ones left out.
pub open spec fn registry_of(texts: Seq<WrapperText>, n: int) -> Seq<WrapperModel>
    decreases n,
{
    if n <= 0 || n > texts.len() {
        Seq::empty()
    } else {
        let before = registry_of(texts, n - 1);
        match wrapper_of(texts[n - 1]) {
            Some(w) => before.push(w),
            None => before,
        }
    }
}

/// Parse an optional expression; none where it does not parse.
fn compile_capture(text: &Option<String>) -> (r: Option<CelExpr>)
    ensures
        r == captured(opt_text(*text)),
{
    match text {
        Some(t) => match parse_cel(t.as_str()) {
            Ok(e) => Some(e),
            Err(_) => None,
        },
        None => None,
    }
}

/// Compile one wrapper; `None` where its `when` or `inner` does not parse.
fn compile_wrapper(w: &WrapperConfig) -> (r: Option<CompiledWrapper>)
    ensures
        match r {
            Some(c) => wrapper_of(w@) == Some(c@),
            None => wrapper_of(w@) is None,
        },
{
    let when = match parse_cel(w.when.as_str()) {
        Ok(e) => e,
        Err(_) => {
            return None;
        },
    };
    let inner = match parse_cel(w.inner.as_str()) {
        Ok(e) => e,
        Err(_) => {
            return None;
        },
    };
    let getopt = match (&w.getopt, &w.getopt_gnu) {
        (Some(g), _) => Some(g.to_arg_spec(ArgStyle::Posix)),
        (None, Some(g)) => Some(g.to_arg_spec(ArgStyle::Gnu)),
        (None, None) => None,
    };
    Some(
        CompiledWrapper {
            name: w.name.clone(),
            when,
            getopt,
            inner,
            capture_user: compile_capture(&w.capture_user),
            capture_host: compile_capture(&w.capture_host),
            skip_wrapper: w.skip_wrapper,
            args_complete: w.args_complete,
            changes_cwd: w.changes_cwd,
        },
    )
}

/// Compile wrappers, leaving invalid ones out.
pub fn compile_wrappers(tagged: &[TaggedWrapper]) -> (r: WrapperRegistry)
    ensures
        r@ == registry_of(wrapper_texts(tagged@), tagged@.len() as int),
{
    let ghost all = wrapper_texts(tagged@);
    let mut r = WrapperRegistry { wrappers: Vec::new() };
    let mut i: usize = 0;
    assert(r@ =~= Seq::<WrapperModel>::empty());
    while i < tagged.len()
        invariant
            i <= tagged@.len(),
            r@ == registry_of(all, i as int),
            all == wrapper_texts(tagged@),
        decreases tagged@.len() - i,
    {
        let ghost before = r@;
        assert(all[i as int] == tagged@[i as int].config@);
        if let Some(c) = compile_wrapper(&tagged[i].config) {
            let ghost model = c@;
            r.wrappers.push(c);
            assert(r@ =~= before.push(model));
        }
        i = i + 1;
    }
    r
}

/// Every configured wrapper whose expressions parse is compiled, with all that it
/// was configured with, and they stay in order; no other is.
pub proof fn valid_wrappers_are_compiled(texts: Seq<WrapperText>, n: int, i: int)
    requires
        0 <= i < n <= texts.len(),
        cel_of(texts[i].when) is Ok,
        cel_of(texts[i].inner) is Ok,
    ensures
        exists|k: int|
            {
                let w = #[trigger] registry_of(texts, n)[k];
                &&& 0 <= k < registry_of(texts, n).len()
                &&& w.name == texts[i].name
                &&& Ok::<CelExpr, Seq<char>>(w.when) == cel_of(texts[i].when)
                &&& Ok::<CelExpr, Seq<char>>(w.inner) == cel_of(texts[i].inner)
                &&& w.getopt == texts[i].getopt
                &&& w.skip_wrapper == texts[i].skip_wrapper
                &&& w.args_complete == texts[i].args_complete
                &&& w.changes_cwd == texts[i].changes_cwd
                &&& texts[i].capture_user is None ==> w.capture_user is None
                &&& texts[i].capture_host is None ==> w.capture_host is None
                &&& texts[i].capture_user is Some && cel_of(texts[i].capture_user->0) is Ok
                    ==> w.capture_user == Some(cel_of(texts[i].capture_user->0)->Ok_0)
                &&& texts[i].capture_host is Some && cel_of(texts[i].capture_host->0) is Ok
                    ==> w.capture_host == Some(cel_of(texts[i].capture_host->0)->Ok_0)
            },
    decreases n,
{
    let before = registry_of(texts, n - 1);
    let now = registry_of(texts, n);
    if i < n - 1 {
        valid_wrappers_are_compiled(texts, n - 1, i);
        let k = choose|k: int|
            {
                let w = #[trigger] registry_of(texts, n - 1)[k];
                &&& 0 <= k < registry_of(texts, n - 1).len()
                &&& w.name == texts[i].name
                &&& Ok::<CelExpr, Seq<char>>(w.when) == cel_of(texts[i].when)
                &&& Ok::<CelExpr, Seq<char>>(w.inner) == cel_of(texts[i].inner)
                &&& w.getopt == texts[i].getopt
                &&& w.skip_wrapper == texts[i].skip_wrapper
                &&& w.args_complete == texts[i].args_complete
                &&& w.changes_cwd == texts[i].changes_cwd
                &&& texts[i].capture_user is None ==> w.capture_user is None
                &&& texts[i].capture_host is None ==> w.capture_host is None
                &&& texts[i].capture_user is Some && cel_of(texts[i].capture_user->0) is Ok
                    ==> w.capture_user == Some(cel_of(texts[i].capture_user->0)->Ok_0)
                &&& texts[i].capture_host is Some && cel_of(texts[i].capture_host->0) is Ok
                    ==> w.capture_host == Some(cel_of(texts[i].capture_host->0)->Ok_0)
            };
        assert(now[k] == before[k]);
    } else {
        assert(wrapper_of(texts[i]) is Some);
        assert(now[before.len() as int] == wrapper_of(texts[i])->0);
    }
}

/// No more wrappers are compiled than are configured.
pub proof fn no_wrapper_is_made_up(texts: Seq<WrapperText>, n: int)
    requires
        0 <= n <= texts.len(),
    ensures
        registry_of(texts, n).len() <= n,
        forall|k: int|
            0 <= k < registry_of(texts, n).len() ==> exists|i: int|
                0 <= i < n && (#[trigger] registry_of(texts, n)[k]).name == (#[trigger] texts[i]).name,
    decreases n,
{
    if n > 0 {
        no_wrapper_is_made_up(texts, n - 1);
        let before = registry_of(texts, n - 1);
        let now = registry_of(texts, n);
        assert forall|k: int| 0 <= k < now.len() implies exists|i: int|
            0 <= i < n && (#[trigger] now[k]).name == (#[trigger] texts[i]).name by {
            if k < before.len() {
                assert(now[k] == before[k]);
                let i = choose|i: int|
                    0 <= i < n - 1 && before[k].name == (#[trigger] texts[i]).name;
                assert(now[k].name == texts[i].name);
            } else {
                assert(now[k].name == texts[n - 1].name);
            }
        }
    }
}

} // verus!
