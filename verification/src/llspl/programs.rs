//! Programs by name, as the server keeps them: in a persistent hash map of
//! the `rpds` crate.
use vstd::prelude::*;
use vstd::string::*;
use crate::json_transformers::parser::{decodes, decoder_of};
use crate::lexer::Stop;
use super::parser::{parse, program_p};
use super::syntax::{Expr, ExprV};

verus! {

/// Programs by name.  The map is an `rpds::HashTrieMapSync` (shared
/// between threads); Verus sees only what it holds, through `programs_of`.
#[verifier::external_body]
pub struct Programs {
    map: rpds::HashTrieMapSync<String, Expr>,
}

/// The programs a collection holds, by name.
pub uninterp spec fn programs_of(p: Programs) -> Map<Seq<char>, ExprV>;

impl Programs {
    /// An empty collection, with `HashTrieMapSync::new_sync`, which holds
    /// nothing.
    #[verifier::external_body]
    fn empty() -> (r: Programs)
        ensures
            programs_of(r).dom() == Set::<Seq<char>>::empty(),
    {
        Programs { map: rpds::HashTrieMapSync::new_sync() }
    }

    /// Adds program `e` under `name`, with `HashTrieMap::insert_mut`, which
    /// replaces a program of the same name.
    #[verifier::external_body]
    fn add(&mut self, name: String, e: Expr)
        ensures
            programs_of(*final(self)) == programs_of(*old(self)).insert(name@, e@),
    {
        self.map.insert_mut(name, e)
    }

    /// The program of `name`, with `HashTrieMap::get`: the one the
    /// collection holds under that name, if any.
    #[verifier::external_body]
    fn find(&self, name: &str) -> (r: Option<&Expr>)
        ensures
            match r {
                Some(e) => programs_of(*self).contains_key(name@) && programs_of(*self)[name@] == e@,
                None => !programs_of(*self).contains_key(name@),
            },
    {
        self.map.get(name)
    }
}

/// The programs of the sources `(name, text)`, in order, a later one
/// replacing an earlier one of the same name; or the name of the first
/// source that is not a program.
pub open spec fn load_spec(
    srcs: Seq<(Seq<char>, Seq<char>)>,
    dec: spec_fn(Seq<char>) -> Option<u64>,
) -> Result<Map<Seq<char>, ExprV>, Seq<char>>
    decreases srcs.len(),
{
    if srcs.len() == 0 {
        Ok(Map::empty())
    } else {
        match load_spec(srcs.drop_last(), dec) {
            Ok(m) => match program_p(srcs.last().1, dec) {
                Ok(e) => Ok(m.insert(srcs.last().0, e)),
                Err(_) => Err(srcs.last().0),
            },
            Err(n) => Err(n),
        }
    }
}

/// The names and texts of sources.
pub open spec fn sources_view(srcs: Seq<(String, String)>) -> Seq<(Seq<char>, Seq<char>)> {
    srcs.map_values(|x: (String, String)| (x.0@, x.1@))
}

proof fn lemma_load_prefix(
    srcs: Seq<(Seq<char>, Seq<char>)>,
    dec: spec_fn(Seq<char>) -> Option<u64>,
    i: int,
)
    requires
        0 <= i <= srcs.len(),
        load_spec(srcs.take(i), dec) is Err,
    ensures
        load_spec(srcs, dec) == load_spec(srcs.take(i), dec),
    decreases srcs.len() - i,
{
    if i < srcs.len() {
        assert(srcs.take(i + 1).drop_last() =~= srcs.take(i));
        lemma_load_prefix(srcs, dec, i + 1);
    } else {
        assert(srcs.take(i) =~= srcs);
    }
}

proof fn lemma_load_domain(
    srcs: Seq<(Seq<char>, Seq<char>)>,
    dec: spec_fn(Seq<char>) -> Option<u64>,
    m: Map<Seq<char>, ExprV>,
    n: Seq<char>,
)
    requires
        load_spec(srcs, dec) == Ok::<Map<Seq<char>, ExprV>, Seq<char>>(m),
    ensures
        m.contains_key(n) <==> exists|i: int| 0 <= i < srcs.len() && (#[trigger] srcs[i]).0 == n,
    decreases srcs.len(),
{
    if srcs.len() > 0 {
        let init = srcs.drop_last();
        let last = srcs.last();
        let m0 = load_spec(init, dec)->Ok_0;
        lemma_load_domain(init, dec, m0, n);
        assert(srcs[srcs.len() - 1] == last);
        if exists|i: int| 0 <= i < init.len() && (#[trigger] init[i]).0 == n {
            let i = choose|i: int| 0 <= i < init.len() && (#[trigger] init[i]).0 == n;
            assert(srcs[i] == init[i]);
        }
        if exists|i: int| 0 <= i < srcs.len() && (#[trigger] srcs[i]).0 == n {
            let i = choose|i: int| 0 <= i < srcs.len() && (#[trigger] srcs[i]).0 == n;
            if i < init.len() {
                assert(init[i] == srcs[i]);
            }
        }
    }
}

proof fn lemma_load_value(
    srcs: Seq<(Seq<char>, Seq<char>)>,
    dec: spec_fn(Seq<char>) -> Option<u64>,
    m: Map<Seq<char>, ExprV>,
    i: int,
)
    requires
        load_spec(srcs, dec) == Ok::<Map<Seq<char>, ExprV>, Seq<char>>(m),
        0 <= i < srcs.len(),
        forall|j: int| i < j < srcs.len() ==> (#[trigger] srcs[j]).0 != srcs[i].0,
    ensures
        program_p(srcs[i].1, dec) == Ok::<ExprV, Stop>(m[srcs[i].0]),
    decreases srcs.len(),
{
    let init = srcs.drop_last();
    let last = srcs.last();
    let m0 = load_spec(init, dec)->Ok_0;
    assert(srcs[srcs.len() - 1] == last);
    if i < srcs.len() - 1 {
        assert(srcs[i] == init[i]);
        assert forall|j: int| i < j < init.len() implies (#[trigger] init[j]).0 != init[i].0 by {
            assert(init[j] == srcs[j]);
        }
        lemma_load_value(init, dec, m0, i);
    }
}

/// Loading keeps every source: a name is held exactly when some source
/// has it, and it holds the program of the last source with that name.
pub proof fn law_load_last_wins(
    srcs: Seq<(Seq<char>, Seq<char>)>,
    dec: spec_fn(Seq<char>) -> Option<u64>,
    m: Map<Seq<char>, ExprV>,
)
    requires
        load_spec(srcs, dec) == Ok::<Map<Seq<char>, ExprV>, Seq<char>>(m),
    ensures
        forall|n: Seq<char>| #[trigger] m.contains_key(n) <==> exists|i: int|
            0 <= i < srcs.len() && (#[trigger] srcs[i]).0 == n,
        forall|i: int|
            0 <= i < srcs.len() && (forall|j: int| i < j < srcs.len() ==> (#[trigger] srcs[j]).0 != srcs[i].0)
                ==> program_p((#[trigger] srcs[i]).1, dec) == Ok::<ExprV, Stop>(m[srcs[i].0]),
{
    assert forall|n: Seq<char>| #[trigger] m.contains_key(n) <==> exists|i: int|
        0 <= i < srcs.len() && (#[trigger] srcs[i]).0 == n by {
        lemma_load_domain(srcs, dec, m, n);
    }
    assert forall|i: int|
        0 <= i < srcs.len() && (forall|j: int| i < j < srcs.len() ==> (#[trigger] srcs[j]).0 != srcs[i].0)
            implies program_p((#[trigger] srcs[i]).1, dec) == Ok::<ExprV, Stop>(m[srcs[i].0]) by {
        lemma_load_value(srcs, dec, m, i);
    }
}

/// Parses the program of each source `(name, text)` and keeps it under its
/// name, a later source replacing an earlier one of the same name; gives
/// the name of the first source whose text is not a program.
#[verifier::loop_isolation(false)]
pub fn load_programs<F: Fn(&str) -> Option<u64>>(sources: Vec<(String, String)>, decode: &F) -> (r:
    Result<Programs, String>)
    requires
        exists|dec: spec_fn(Seq<char>) -> Option<u64>| decodes(*decode, dec),
        forall|i: int|
            0 <= i < sources@.len() ==> program_p(#[trigger] sources@[i].1@, decoder_of(*decode))
                != Err::<ExprV, Stop>(Stop::Abort),
    ensures
        match r {
            Ok(p) => load_spec(sources_view(sources@), decoder_of(*decode)) == Ok::<
                Map<Seq<char>, ExprV>,
                Seq<char>,
            >(programs_of(p)),
            Err(n) => load_spec(sources_view(sources@), decoder_of(*decode)) == Err::<
                Map<Seq<char>, ExprV>,
                Seq<char>,
            >(n@),
        },
{
    let ghost dec = decoder_of(*decode);
    let ghost sv = sources_view(sources@);
    let mut programs = Programs::empty();
    proof {
        assert(sv.take(0) =~= Seq::<(Seq<char>, Seq<char>)>::empty());
        assert(programs_of(programs) =~= Map::<Seq<char>, ExprV>::empty());
    }
    let mut i: usize = 0;
    while i < sources.len()
        invariant
            i <= sources.len(),
            sv == sources_view(sources@),
            load_spec(sv.take(i as int), dec) == Ok::<Map<Seq<char>, ExprV>, Seq<char>>(
                programs_of(programs),
            ),
        decreases sources.len() - i,
    {
        proof {
            assert(sv.take(i + 1).drop_last() =~= sv.take(i as int));
            assert(sv.take(i + 1).last() == sv[i as int]);
        }
        let name = &sources[i].0;
        let text = &sources[i].1;
        match parse(text.as_str(), decode) {
            Ok((_, e)) => {
                programs.add(name.clone(), e);
            },
            Err(_) => {
                proof {
                    lemma_load_prefix(sv, dec, i + 1);
                }
                return Err(name.clone());
            },
        }
        i = i + 1;
    }
    proof {
        assert(sv.take(sources.len() as int) =~= sv);
    }
    Ok(programs)
}

/// Where a request goes: the program it names, or the message that no
/// program has that name.
pub enum Route<'a> {
    Run(&'a Expr),
    NotFound(String),
}

/// The message for a name that no program has.
pub open spec fn not_found_message(name: Seq<char>) -> Seq<char> {
    name + " is not a known LLSPL program"@
}

/// The program a request for `path` runs: the one named by the path
/// without its leading `/`.
pub fn route<'a>(programs: &'a Programs, path: &str) -> (r: Route<'a>)
    requires
        path@.len() >= 1,
        (path@[0] as u32) < 0x80,
    ensures
        match r {
            Route::Run(e) => programs_of(*programs).contains_key(path@.drop_first()) && e@
                == programs_of(*programs)[path@.drop_first()],
            Route::NotFound(m) => !programs_of(*programs).contains_key(path@.drop_first()) && m@
                == not_found_message(path@.drop_first()),
        },
{
    let n = path.unicode_len();
    let name = path.substring_char(1, n);
    proof {
        assert(name@ =~= path@.drop_first());
    }
    match programs.find(name) {
        Some(e) => Route::Run(e),
        None => Route::NotFound(name.to_owned().concat(" is not a known LLSPL program")),
    }
}

} // verus!
