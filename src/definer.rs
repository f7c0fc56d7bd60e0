//! Where generated text goes, and the memory of which type names are defined.
use vstd::prelude::*;
use vstd::string::StrSliceExecFns;

verus! {

/// The destination refused some text.
#[derive(Debug, PartialEq, Eq, Structural)]
pub struct WriteError;

/// `now` kept all of `before` and holds no more than a prefix of `full`: what
/// a destination holds after writing stopped part way to `full`.
pub open spec fn between(before: Seq<char>, now: Seq<char>, full: Seq<char>) -> bool {
    before.is_prefix_of(now) && now.is_prefix_of(full)
}

/// Being a prefix is transitive.
pub proof fn lemma_prefix_trans(a: Seq<char>, b: Seq<char>, c: Seq<char>)
    requires
        a.is_prefix_of(b),
        b.is_prefix_of(c),
    ensures
        a.is_prefix_of(c),
{
    assert(c.subrange(0, a.len() as int) =~= b.subrange(0, a.len() as int));
}

/// A prefix stays a prefix when text is appended to the longer sequence.
pub proof fn lemma_prefix_append(a: Seq<char>, b: Seq<char>, g: Seq<char>)
    requires
        a.is_prefix_of(b),
    ensures
        a.is_prefix_of(b + g),
{
    assert((b + g).subrange(0, a.len() as int) =~= b.subrange(0, a.len() as int));
}

/// Putting the same text in front of both keeps a prefix a prefix.
pub proof fn lemma_prefix_under(t: Seq<char>, a: Seq<char>, b: Seq<char>)
    requires
        a.is_prefix_of(b),
    ensures
        (t + a).is_prefix_of(t + b),
        t.is_prefix_of(t + a),
{
    assert((t + b).subrange(0, (t + a).len() as int) =~= t + a);
    assert((t + a).subrange(0, t.len() as int) =~= t);
}

/// A destination for text: it appends, or reports a failure.
pub trait Sink {
    /// What has been appended so far.
    spec fn written(&self) -> Seq<char>;

    /// The destination never reports a failure.
    spec fn infallible(&self) -> bool;

    /// Appends `s`.
    fn write_str(&mut self, s: &str) -> (r: Result<(), WriteError>)
        ensures
            final(self).infallible() == old(self).infallible(),
            old(self).infallible() ==> r is Ok,
            r is Ok ==> final(self).written() == old(self).written() + s@,
            r is Err ==> between(old(self).written(), final(self).written(), old(self).written() + s@),
    ;
}

/// An in-memory destination.
impl Sink for String {
    open spec fn written(&self) -> Seq<char> {
        self@
    }

    open spec fn infallible(&self) -> bool {
        true
    }

    fn write_str(&mut self, s: &str) -> (r: Result<(), WriteError>) {
        self.append(s);
        Ok(())
    }
}

/// An in-memory destination that holds at most `limit` characters and refuses
/// any text that would take it past that.
pub struct LimitedSink {
    text: String,
    limit: usize,
}

impl LimitedSink {
    /// An empty destination with room for `limit` characters.
    pub fn new(limit: usize) -> (r: Self)
        ensures
            r.written() == Seq::<char>::empty(),
            r.limit() == limit,
    {
        LimitedSink { text: String::new(), limit }
    }

    /// The number of characters the destination holds at most.
    pub closed spec fn limit(&self) -> nat {
        self.limit as nat
    }

    /// Appends `s` when the text then holds at most `limit` characters; else
    /// refuses it and keeps the text as it was.
    pub fn push_str(&mut self, s: &str) -> (r: Result<(), WriteError>)
        ensures
            final(self).limit() == old(self).limit(),
            r is Ok <==> old(self).written().len() + s@.len() <= old(self).limit(),
            r is Ok ==> final(self).written() == old(self).written() + s@,
            r is Err ==> final(self).written() == old(self).written(),
    {
        let held = self.text.as_str().unicode_len();
        let more = s.unicode_len();
        if more > self.limit || held > self.limit - more {
            return Err(WriteError);
        }
        self.text.append(s);
        Ok(())
    }

    /// The text written so far.
    pub fn into_string(self) -> (r: String)
        ensures
            r@ == self.written(),
    {
        self.text
    }
}

impl Sink for LimitedSink {
    closed spec fn written(&self) -> Seq<char> {
        self.text@
    }

    closed spec fn infallible(&self) -> bool {
        false
    }

    fn write_str(&mut self, s: &str) -> (r: Result<(), WriteError>) {
        let r = self.push_str(s);
        proof {
            lemma_prefix_under(old(self).written(), Seq::empty(), s@);
            assert(old(self).written() + Seq::<char>::empty() =~= old(self).written());
        }
        r
    }
}

/// Receives the text of one generation pass and remembers which named types
/// already have their full definition in it.
pub trait Definer {
    /// The names declared so far in this pass.
    spec fn declared(&self) -> Set<Seq<char>>;

    /// The text written so far.
    spec fn text(&self) -> Seq<char>;

    /// Writing never fails.
    spec fn infallible(&self) -> bool;

    /// Records `name`; true exactly when it was not recorded before, in which
    /// case the caller writes its definition.
    fn insert(&mut self, name: &str) -> (r: bool)
        ensures
            r == !old(self).declared().contains(name@),
            final(self).declared() == old(self).declared().insert(name@),
            final(self).text() == old(self).text(),
            final(self).infallible() == old(self).infallible(),
    ;

    /// Appends `s` to the text.
    fn write(&mut self, s: &str) -> (r: Result<(), WriteError>)
        ensures
            final(self).declared() == old(self).declared(),
            final(self).infallible() == old(self).infallible(),
            old(self).infallible() ==> r is Ok,
            r is Ok ==> final(self).text() == old(self).text() + s@,
            r is Err ==> between(old(self).text(), final(self).text(), old(self).text() + s@),
    ;
}

/// The usual definer: a destination and the list of names declared in it.
pub struct SetDefiner<W: Sink> {
    out: W,
    names: Vec<String>,
}

impl<W: Sink> SetDefiner<W> {
    /// A definer over `out` that has declared nothing.
    pub fn new(out: W) -> (r: Self)
        ensures
            r.text() == out.written(),
            r.infallible() == out.infallible(),
            r.declared() == Set::<Seq<char>>::empty(),
    {
        let r = SetDefiner { out, names: Vec::new() };
        assert(r.declared() =~= Set::<Seq<char>>::empty());
        r
    }

    /// The destination, once the pass is over.
    pub fn into_sink(self) -> (r: W)
        ensures
            r.written() == self.text(),
    {
        self.out
    }
}

impl<W: Sink> Definer for SetDefiner<W> {
    closed spec fn declared(&self) -> Set<Seq<char>> {
        Set::new(|n: Seq<char>| exists|i: int| 0 <= i < self.names.len() && (#[trigger] self.names[i])@ == n)
    }

    closed spec fn text(&self) -> Seq<char> {
        self.out.written()
    }

    closed spec fn infallible(&self) -> bool {
        self.out.infallible()
    }

    fn insert(&mut self, name: &str) -> (r: bool) {
        let owned = name.to_owned();
        let mut i: usize = 0;
        while i < self.names.len()
            invariant
                i <= self.names.len(),
                owned@ == name@,
                forall|j: int| 0 <= j < i ==> (#[trigger] self.names[j])@ != name@,
            decreases self.names.len() - i,
        {
            if self.names[i] == owned {
                assert(self.declared().contains(name@)) by {
                    assert(self.names[i as int]@ == name@);
                }
                assert(self.declared().insert(name@) =~= self.declared());
                return false;
            }
            i = i + 1;
        }
        let ghost before = self.declared();
        let ghost old_names = self.names@;
        self.names.push(owned);
        assert(self.declared() =~= before.insert(name@)) by {
            assert(self.names[self.names.len() - 1]@ == name@);
            assert forall|n: Seq<char>| before.contains(n) implies self.declared().contains(n) by {
                let j = choose|j: int| 0 <= j < old_names.len() && (#[trigger] old_names[j])@ == n;
                assert(self.names[j]@ == n);
            }
            assert forall|n: Seq<char>| self.declared().contains(n) && n != name@ implies before.contains(n) by {
                let j = choose|j: int| 0 <= j < self.names.len() && (#[trigger] self.names[j])@ == n;
                assert(old_names[j]@ == n);
            }
        }
        true
    }

    fn write(&mut self, s: &str) -> (r: Result<(), WriteError>) {
        self.out.write_str(s)
    }
}

} // verus!
