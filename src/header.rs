//! The export registry and the generation of one header document from it.
use vstd::prelude::*;
use crate::decl::{lemma_render_all_prefix, render, render_all, Export};
use crate::definer::{
    between, lemma_prefix_append, lemma_prefix_trans, lemma_prefix_under, Definer, SetDefiner, Sink,
    WriteError,
};

verus! {

/// The banner used when none is configured.
pub const DEFAULT_BANNER: &'static str = "/*! \\file */\n/*******************************************\n *                                         *\n *  File auto-generated by `::safer_ffi`.  *\n *                                         *\n *  Do not manually edit this file.        *\n *                                         *\n *******************************************/";

/// The exported items, in the order they were registered. Nothing is ever
/// removed, and the order of registration is the order of emission.
pub struct Registry {
    entries: Vec<Export>,
}

impl View for Registry {
    type V = Seq<Export>;

    closed spec fn view(&self) -> Seq<Export> {
        self.entries@
    }
}

impl Registry {
    /// A registry with no entries.
    pub fn new() -> (r: Self)
        ensures
            r@ == Seq::<Export>::empty(),
    {
        Registry { entries: Vec::new() }
    }

    /// Appends `e` after the entries registered so far.
    pub fn register(&mut self, e: Export)
        ensures
            final(self)@ == old(self)@.push(e),
    {
        self.entries.push(e);
    }

    /// Every registered entry, in order of registration.
    pub fn entries(&self) -> (r: &Vec<Export>)
        ensures
            r@ == self@,
    {
        &self.entries
    }
}

/// `c` in upper case if it is an ASCII lower-case letter, else `c` itself.
pub open spec fn ascii_upper(c: char) -> char {
    if 'a' <= c <= 'z' {
        ((c as u32) - 32) as char
    } else {
        c
    }
}

/// Relies on `str::to_ascii_uppercase`: each ASCII lower-case letter becomes
/// its upper-case letter, every other character stays as it is.
#[verifier::external_body]
fn to_ascii_upper(s: &str) -> (r: String)
    ensures
        r@ == s@.map_values(|c: char| ascii_upper(c)),
{
    s.to_ascii_uppercase()
}

/// The include guard derived from a package name: `__RUST_<NAME>__`.
pub open spec fn default_guard_text(package: Seq<char>) -> Seq<char> {
    "__RUST_"@ + package.map_values(|c: char| ascii_upper(c)) + "__"@
}

/// The include guard derived from `package`.
pub fn default_guard(package: &str) -> (r: String)
    ensures
        r@ == default_guard_text(package@),
{
    let mut s = String::new();
    s.append("__RUST_");
    let upper = to_ascii_upper(package);
    s.append(upper.as_str());
    s.append("__");
    s
}

/// Text before the declarations: banner, include guard, opening of the
/// C++ linkage block.
pub open spec fn prologue_text(guard: Seq<char>, banner: Seq<char>) -> Seq<char> {
    banner + "\n\n#ifndef "@ + guard + "\n#define "@ + guard
        + "\n\n#ifdef __cplusplus\nextern \"C\" {\n#endif\n\n"@
}

/// Text after the declarations: closing of the linkage block and of the guard.
pub open spec fn epilogue_text(guard: Seq<char>) -> Seq<char> {
    "\n#ifdef __cplusplus\n} /* extern \"C\" */\n#endif\n\n#endif /* "@ + guard + " */\n"@
}

/// A whole header document around the declarations `body`.
pub open spec fn header_text(guard: Seq<char>, banner: Seq<char>, body: Seq<char>) -> Seq<char> {
    prologue_text(guard, banner) + body + epilogue_text(guard)
}

/// Why a header could not be generated.
#[derive(Debug, PartialEq, Eq, Structural)]
pub enum HeaderError {
    /// No guard was configured and no package name was given to derive one.
    MissingGuard,
    /// The destination refused some text.
    Write(WriteError),
}

/// Settings of a generation pass, before a destination is bound.
pub struct Builder {
    pub guard: Option<String>,
    pub banner: Option<String>,
}

/// A builder bound to its destination, ready to generate.
pub struct BoundBuilder<W: Sink> {
    pub config: Builder,
    pub target: W,
}

/// A builder with neither guard nor banner configured.
pub fn builder() -> (r: Builder)
    ensures
        r.guard is None,
        r.banner is None,
{
    Builder { guard: None, banner: None }
}

impl Builder {
    /// The guard this builder uses, given the package name, if any.
    pub open spec fn guard_for(&self, package: Option<Seq<char>>) -> Option<Seq<char>> {
        match self.guard {
            Some(g) => Some(g@),
            None => match package {
                Some(p) => Some(default_guard_text(p)),
                None => None,
            },
        }
    }

    /// The banner this builder uses.
    pub open spec fn banner_text(&self) -> Seq<char> {
        match self.banner {
            Some(b) => b@,
            None => DEFAULT_BANNER@,
        }
    }

    /// Sets the include guard.
    pub fn with_guard(self, guard: &str) -> (r: Self)
        ensures
            r.guard is Some && r.guard->0@ == guard@,
            r.banner == self.banner,
    {
        Builder { guard: Some(guard.to_owned()), ..self }
    }

    /// Sets the banner.
    pub fn with_banner(self, banner: &str) -> (r: Self)
        ensures
            r.banner is Some && r.banner->0@ == banner@,
            r.guard == self.guard,
    {
        Builder { banner: Some(banner.to_owned()), ..self }
    }

    /// Binds the destination that `generate` writes to.
    pub fn to_writer<W: Sink>(self, out: W) -> (r: BoundBuilder<W>)
        ensures
            r.config == self,
            r.target == out,
    {
        BoundBuilder { config: self, target: out }
    }
}

/// Writing stopped somewhere in `piece`, after `done`, which extends `t0`:
/// what was written lies between `t0` and `done + piece + rest`.
proof fn lemma_stage(t0: Seq<char>, done: Seq<char>, now: Seq<char>, piece: Seq<char>, rest: Seq<char>)
    requires
        t0.is_prefix_of(done),
        between(done, now, done + piece),
    ensures
        between(t0, now, done + piece + rest),
{
    lemma_prefix_trans(t0, done, now);
    lemma_prefix_append(now, done + piece, rest);
}

/// The opening text of a header.
fn prologue(guard: &str, banner: &str) -> (r: String)
    ensures
        r@ == prologue_text(guard@, banner@),
{
    let mut s = String::new();
    s.append(banner);
    s.append("\n\n#ifndef ");
    s.append(guard);
    s.append("\n#define ");
    s.append(guard);
    s.append("\n\n#ifdef __cplusplus\nextern \"C\" {\n#endif\n\n");
    s
}

/// The closing text of a header.
fn epilogue(guard: &str) -> (r: String)
    ensures
        r@ == epilogue_text(guard@),
{
    let mut s = String::new();
    s.append("\n#ifdef __cplusplus\n} /* extern \"C\" */\n#endif\n\n#endif /* ");
    s.append(guard);
    s.append(" */\n");
    s
}

/// Renders each of `entries` in turn through `definer`, up to the first failure.
pub fn render_entries<D: Definer>(entries: &Vec<Export>, definer: &mut D) -> (r: Result<
    (),
    WriteError,
>)
    ensures
        final(definer).infallible() == old(definer).infallible(),
        old(definer).infallible() ==> r is Ok,
        r is Ok ==> final(definer).text() == old(definer).text() + render_all(
            entries@,
            old(definer).declared(),
        ).0,
        r is Ok ==> final(definer).declared() == render_all(entries@, old(definer).declared()).1,
        r is Err ==> between(
            old(definer).text(),
            final(definer).text(),
            old(definer).text() + render_all(entries@, old(definer).declared()).0,
        ),
{
    let ghost t0 = definer.text();
    let ghost d0 = definer.declared();
    let mut i: usize = 0;
    assert(t0 + render_all(entries@.subrange(0, 0), d0).0 =~= t0);
    while i < entries.len()
        invariant
            i <= entries.len(),
            old(definer).infallible() == definer.infallible(),
            t0 == old(definer).text(),
            d0 == old(definer).declared(),
            definer.text() == t0 + render_all(entries@.subrange(0, i as int), d0).0,
            definer.declared() == render_all(entries@.subrange(0, i as int), d0).1,
        decreases entries.len() - i,
    {
        let ghost es = entries@.subrange(0, i + 1);
        assert(es.drop_last() =~= entries@.subrange(0, i as int));
        let ghost before = definer.text();
        let ghost dbefore = definer.declared();
        let res = entries[i].render(definer);
        if res.is_err() {
            proof {
                let upto = render_all(es, d0).0;
                let all = render_all(entries@, d0).0;
                assert(t0 + upto =~= before + render(entries@[i as int], dbefore).0);
                lemma_render_all_prefix(entries@, d0, i + 1);
                lemma_prefix_under(t0, upto, all);
                lemma_prefix_trans(definer.text(), t0 + upto, t0 + all);
                lemma_prefix_under(t0, render_all(entries@.subrange(0, i as int), d0).0, all);
                lemma_prefix_trans(t0, before, definer.text());
            }
            return res;
        }
        i = i + 1;
        assert(definer.text() =~= t0 + render_all(entries@.subrange(0, i as int), d0).0);
    }
    assert(entries@.subrange(0, entries.len() as int) =~= entries@);
    Ok(())
}

impl Builder {
    /// Generates one header document from the entries of `registry`, through a
    /// caller-supplied definer. The guard is the configured one, else the one
    /// derived from `package`; with neither, nothing is written. The first
    /// failed write ends the pass, leaving whatever was written.
    pub fn generate_with_definer<D: Definer>(
        self,
        registry: &Registry,
        package: Option<&str>,
        definer: &mut D,
    ) -> (r: Result<(), HeaderError>)
        ensures
            final(definer).infallible() == old(definer).infallible(),
            match self.guard_for(
                match package {
                    Some(p) => Some(p@),
                    None => None,
                },
            ) {
                None => r is Err && r->Err_0 is MissingGuard && final(definer).text()
                    == old(definer).text() && final(definer).declared() == old(definer).declared(),
                Some(guard) => {
                    &&& old(definer).infallible() ==> r is Ok
                    &&& r is Err ==> r->Err_0 is Write
                    &&& r is Ok ==> final(definer).text() == old(definer).text() + header_text(
                        guard,
                        self.banner_text(),
                        render_all(registry@, old(definer).declared()).0,
                    )
                    &&& r is Ok ==> final(definer).declared() == render_all(
                        registry@,
                        old(definer).declared(),
                    ).1
                    &&& r is Err ==> between(
                        old(definer).text(),
                        final(definer).text(),
                        old(definer).text() + header_text(
                            guard,
                            self.banner_text(),
                            render_all(registry@, old(definer).declared()).0,
                        ),
                    )
                },
            },
    {
        let guard: String = match &self.guard {
            Some(g) => g.clone(),
            None => match package {
                Some(p) => default_guard(p),
                None => {
                    return Err(HeaderError::MissingGuard);
                },
            },
        };
        let banner: String = match self.banner {
            Some(b) => b,
            None => DEFAULT_BANNER.to_owned(),
        };
        let ghost t0 = definer.text();
        let ghost d0 = definer.declared();
        let ghost pk = match package {
            Some(p) => Some(p@),
            None => None,
        };
        assert(self.guard_for(pk) == Some(guard@));
        assert(pk == (match package {
            Some(p) => Some(p@),
            None => None::<Seq<char>>,
        }));
        assert(self.banner_text() == banner@);
        let ghost pro = prologue_text(guard@, banner@);
        let ghost body = render_all(registry@, d0).0;
        let ghost epi = epilogue_text(guard@);
        let ghost full = t0 + header_text(guard@, banner@, body);
        assert(full =~= t0 + pro + body + epi);
        let head = prologue(guard.as_str(), banner.as_str());
        match definer.write(head.as_str()) {
            Ok(()) => {},
            Err(e) => {
                proof {
                    lemma_stage(t0, t0, definer.text(), pro, body + epi);
                    assert(t0 + pro + (body + epi) =~= full);
                }
                return Err(HeaderError::Write(e));
            },
        }
        let ghost t1 = definer.text();
        proof {
            lemma_prefix_under(t0, pro, pro);
        }
        match render_entries(registry.entries(), definer) {
            Ok(()) => {},
            Err(e) => {
                proof {
                    lemma_stage(t0, t1, definer.text(), body, epi);
                    assert(t1 + body + epi =~= full);
                }
                return Err(HeaderError::Write(e));
            },
        }
        let ghost t2 = definer.text();
        proof {
            lemma_prefix_under(t0, pro, pro + body);
            assert(t0 + (pro + body) =~= t2);
        }
        let tail = epilogue(guard.as_str());
        match definer.write(tail.as_str()) {
            Ok(()) => {},
            Err(e) => {
                proof {
                    lemma_stage(t0, t2, definer.text(), epi, Seq::empty());
                    assert(t2 + epi + Seq::<char>::empty() =~= full);
                }
                return Err(HeaderError::Write(e));
            },
        }
        assert(definer.text() =~= t0 + header_text(
            guard@,
            banner@,
            render_all(registry@, d0).0,
        ));
        Ok(())
    }
}

impl<W: Sink> BoundBuilder<W> {
    /// Generates the header into the bound destination, with a definer that
    /// starts with no declared names, and hands the destination back.
    pub fn generate(self, registry: &Registry, package: Option<&str>) -> (r: Result<
        W,
        HeaderError,
    >)
        ensures
            match self.config.guard_for(
                match package {
                    Some(p) => Some(p@),
                    None => None,
                },
            ) {
                None => r is Err && r->Err_0 is MissingGuard,
                Some(guard) => {
                    &&& self.target.infallible() ==> r is Ok
                    &&& r is Err ==> r->Err_0 is Write
                    &&& r is Ok ==> r->Ok_0.written() == self.target.written() + header_text(
                        guard,
                        self.config.banner_text(),
                        render_all(registry@, Set::empty()).0,
                    )
                },
            },
    {
        let mut definer = SetDefiner::new(self.target);
        match self.config.generate_with_definer(registry, package, &mut definer) {
            Ok(()) => Ok(definer.into_sink()),
            Err(e) => Err(e),
        }
    }
}

} // verus!
