//! C declarations of exported items, and their text.
use vstd::prelude::*;
use crate::definer::{between, lemma_prefix_append, lemma_prefix_trans, lemma_prefix_under, Definer, WriteError};

verus! {

/// A C type and a name: a struct field or a function parameter.
pub struct CField {
    pub ty: String,
    pub name: String,
}

/// A named C struct, defined as `typedef struct Name { ... } Name_t;`.
pub struct CStruct {
    pub name: String,
    pub fields: Vec<CField>,
}

/// A declared value of a C enum.
pub struct CVariant {
    pub name: String,
    pub value: u64,
}

/// A fieldless C enum stored in the integer type `repr`, defined as
/// `typedef repr Name_t; enum Name { ... };`.
pub struct CEnum {
    pub name: String,
    pub repr: String,
    pub variants: Vec<CVariant>,
}

/// A named type that a header defines at most once.
pub enum TypeDef {
    Struct(CStruct),
    Enum(CEnum),
}

/// An exported C function, with the named types its signature refers to.
pub struct CFunction {
    pub ret: String,
    pub name: String,
    pub params: Vec<CField>,
    pub uses: Vec<TypeDef>,
}

/// One exported item.
pub enum Export {
    Function(CFunction),
    Type(TypeDef),
}

/// `ty name;` on a line of its own, indented.
pub open spec fn field_line(f: CField) -> Seq<char> {
    "    "@ + f.ty@ + " "@ + f.name@ + ";\n"@
}

/// The field lines of a struct body, in order.
pub open spec fn fields_text(fs: Seq<CField>) -> Seq<char>
    decreases fs.len(),
{
    if fs.len() == 0 {
        Seq::empty()
    } else {
        fields_text(fs.drop_last()) + field_line(fs.last())
    }
}

/// The full definition of a struct, followed by an empty line.
pub open spec fn struct_text(c: CStruct) -> Seq<char> {
    "typedef struct "@ + c.name@ + " {\n"@ + fields_text(c.fields@) + "} "@ + c.name@ + "_t;\n\n"@
}

/// The character of decimal digit `d`.
pub open spec fn digit_char(d: nat) -> char {
    (('0' as u32) + d) as char
}

/// `n` in decimal, without leading zeros.
pub open spec fn decimal(n: nat) -> Seq<char>
    decreases n,
{
    if n < 10 {
        seq![digit_char(n)]
    } else {
        decimal(n / 10) + seq![digit_char(n % 10)]
    }
}

/// `NAME = value,` on a line of its own, indented.
pub open spec fn variant_line(v: CVariant) -> Seq<char> {
    "    "@ + v.name@ + " = "@ + decimal(v.value as nat) + ",\n"@
}

/// The variant lines of an enum body, in order.
pub open spec fn variants_text(vs: Seq<CVariant>) -> Seq<char>
    decreases vs.len(),
{
    if vs.len() == 0 {
        Seq::empty()
    } else {
        variants_text(vs.drop_last()) + variant_line(vs.last())
    }
}

/// The full definition of an enum, followed by an empty line.
pub open spec fn enum_text(e: CEnum) -> Seq<char> {
    "typedef "@ + e.repr@ + " "@ + e.name@ + "_t;\nenum "@ + e.name@ + " {\n"@ + variants_text(
        e.variants@,
    ) + "};\n\n"@
}

/// The name a type definition declares.
pub open spec fn def_name(t: TypeDef) -> Seq<char> {
    match t {
        TypeDef::Struct(c) => c.name@,
        TypeDef::Enum(e) => e.name@,
    }
}

/// The full definition of a type.
pub open spec fn def_text(t: TypeDef) -> Seq<char> {
    match t {
        TypeDef::Struct(c) => struct_text(c),
        TypeDef::Enum(e) => enum_text(e),
    }
}

/// The parameters, one per line, separated by commas.
pub open spec fn params_list(ps: Seq<CField>) -> Seq<char>
    decreases ps.len(),
{
    if ps.len() == 0 {
        Seq::empty()
    } else if ps.len() == 1 {
        "\n    "@ + ps[0].ty@ + " "@ + ps[0].name@
    } else {
        params_list(ps.drop_last()) + ",\n    "@ + ps.last().ty@ + " "@ + ps.last().name@
    }
}

/// The prototype of a function, followed by an empty line; `void` stands for
/// an empty parameter list.
pub open spec fn proto_text(f: CFunction) -> Seq<char> {
    let params = if f.params@.len() == 0 {
        "void"@
    } else {
        params_list(f.params@)
    };
    f.ret@ + " "@ + f.name@ + " ("@ + params + ");\n\n"@
}

/// Text and declared names after defining each of `ts` in turn, starting from
/// declared names `d`: a type whose name is declared already is skipped.
pub open spec fn define_all(ts: Seq<TypeDef>, d: Set<Seq<char>>) -> (Seq<char>, Set<Seq<char>>)
    decreases ts.len(),
{
    if ts.len() == 0 {
        (Seq::empty(), d)
    } else {
        let prev = define_all(ts.drop_last(), d);
        let c = ts.last();
        if prev.1.contains(def_name(c)) {
            prev
        } else {
            (prev.0 + def_text(c), prev.1.insert(def_name(c)))
        }
    }
}

/// Text and declared names after rendering one export from declared names `d`:
/// the structs it uses that are not yet defined, then its prototype.
pub open spec fn render(e: Export, d: Set<Seq<char>>) -> (Seq<char>, Set<Seq<char>>) {
    match e {
        Export::Function(f) => {
            let defs = define_all(f.uses@, d);
            (defs.0 + proto_text(f), defs.1)
        },
        Export::Type(t) => define_all(seq![t], d),
    }
}

/// Text and declared names after rendering each of `es` in turn.
pub open spec fn render_all(es: Seq<Export>, d: Set<Seq<char>>) -> (Seq<char>, Set<Seq<char>>)
    decreases es.len(),
{
    if es.len() == 0 {
        (Seq::empty(), d)
    } else {
        let prev = render_all(es.drop_last(), d);
        let here = render(es.last(), prev.1);
        (prev.0 + here.0, here.1)
    }
}

/// The names of the types whose definitions `define_all(ts, d)` writes, in order.
pub open spec fn defined_names(ts: Seq<TypeDef>, d: Set<Seq<char>>) -> Seq<Seq<char>>
    decreases ts.len(),
{
    if ts.len() == 0 {
        Seq::empty()
    } else {
        let names = defined_names(ts.drop_last(), d);
        if define_all(ts.drop_last(), d).1.contains(def_name(ts.last())) {
            names
        } else {
            names.push(def_name(ts.last()))
        }
    }
}

/// The names of the types whose definitions `render(e, d)` writes, in order.
pub open spec fn export_names(e: Export, d: Set<Seq<char>>) -> Seq<Seq<char>> {
    match e {
        Export::Function(f) => defined_names(f.uses@, d),
        Export::Type(t) => defined_names(seq![t], d),
    }
}

/// The names of the types whose definitions `render_all(es, d)` writes, in order.
pub open spec fn rendered_names(es: Seq<Export>, d: Set<Seq<char>>) -> Seq<Seq<char>>
    decreases es.len(),
{
    if es.len() == 0 {
        Seq::empty()
    } else {
        rendered_names(es.drop_last(), d) + export_names(es.last(), render_all(es.drop_last(), d).1)
    }
}

proof fn lemma_define_all_names(ts: Seq<TypeDef>, d: Set<Seq<char>>)
    ensures
        defined_names(ts, d).no_duplicates(),
        forall|k: int|
            0 <= k < defined_names(ts, d).len() ==> !d.contains(#[trigger] defined_names(ts, d)[k]),
        forall|n: Seq<char>|
            #[trigger] define_all(ts, d).1.contains(n) <==> (d.contains(n) || defined_names(
                ts,
                d,
            ).contains(n)),
    decreases ts.len(),
{
    if ts.len() > 0 {
        lemma_define_all_names(ts.drop_last(), d);
        let names = defined_names(ts.drop_last(), d);
        let x = def_name(ts.last());
        if !define_all(ts.drop_last(), d).1.contains(x) {
            assert(!names.contains(x));
            let now = names.push(x);
            assert forall|n: Seq<char>| now.contains(n) <==> (names.contains(n) || n == x) by {
                if names.contains(n) {
                    let k = choose|k: int| 0 <= k < names.len() && names[k] == n;
                    assert(now[k] == n);
                }
                if n == x {
                    assert(now[names.len() as int] == n);
                }
                if now.contains(n) && n != x {
                    let k = choose|k: int| 0 <= k < now.len() && now[k] == n;
                    assert(names[k] == n);
                }
            }
        }
    }
}

/// In one pass over any exports, from any set of names declared before, no
/// type is defined twice and none that was declared before is defined again;
/// afterwards the declared names are those before and those defined.
pub proof fn lemma_render_all_names(es: Seq<Export>, d: Set<Seq<char>>)
    ensures
        rendered_names(es, d).no_duplicates(),
        forall|k: int|
            0 <= k < rendered_names(es, d).len() ==> !d.contains(#[trigger] rendered_names(es, d)[k]),
        forall|n: Seq<char>|
            #[trigger] render_all(es, d).1.contains(n) <==> (d.contains(n) || rendered_names(
                es,
                d,
            ).contains(n)),
    decreases es.len(),
{
    if es.len() > 0 {
        lemma_render_all_names(es.drop_last(), d);
        let before = rendered_names(es.drop_last(), d);
        let d1 = render_all(es.drop_last(), d).1;
        let more = export_names(es.last(), d1);
        match es.last() {
            Export::Function(f) => lemma_define_all_names(f.uses@, d1),
            Export::Type(t) => lemma_define_all_names(seq![t], d1),
        }
        let now = before + more;
        assert forall|i: int, j: int| 0 <= i < now.len() && 0 <= j < now.len() && i != j implies now[i]
            != now[j] by {
            if i < before.len() && j >= before.len() {
                assert(d1.contains(before[i]));
                assert(now[j] == more[j - before.len()]);
            } else if j < before.len() && i >= before.len() {
                assert(d1.contains(before[j]));
                assert(now[i] == more[i - before.len()]);
            }
        }
        assert forall|n: Seq<char>| now.contains(n) <==> (before.contains(n) || more.contains(n)) by {
            if before.contains(n) {
                let k = choose|k: int| 0 <= k < before.len() && before[k] == n;
                assert(now[k] == n);
            }
            if more.contains(n) {
                let k = choose|k: int| 0 <= k < more.len() && more[k] == n;
                assert(now[before.len() + k] == n);
            }
            if now.contains(n) {
                let k = choose|k: int| 0 <= k < now.len() && now[k] == n;
                if k < before.len() {
                    assert(before[k] == n);
                } else {
                    assert(more[k - before.len()] == n);
                }
            }
        }
        assert forall|k: int| 0 <= k < now.len() implies !d.contains(#[trigger] now[k]) by {
            if k >= before.len() {
                assert(now[k] == more[k - before.len()]);
                assert(!d1.contains(more[k - before.len()]));
            }
        }
    }
}

proof fn lemma_define_all_prefix(ts: Seq<TypeDef>, d: Set<Seq<char>>, i: int)
    requires
        0 <= i <= ts.len(),
    ensures
        define_all(ts.subrange(0, i), d).0.is_prefix_of(define_all(ts, d).0),
    decreases ts.len(),
{
    if i == ts.len() {
        assert(ts.subrange(0, i) =~= ts);
    } else {
        lemma_define_all_prefix(ts.drop_last(), d, i);
        assert(ts.drop_last().subrange(0, i) =~= ts.subrange(0, i));
        let prev = define_all(ts.drop_last(), d);
        if !prev.1.contains(def_name(ts.last())) {
            lemma_prefix_append(define_all(ts.subrange(0, i), d).0, prev.0, def_text(ts.last()));
        }
    }
}

/// Rendering the first `i` exports writes a prefix of what rendering all of
/// them writes.
pub proof fn lemma_render_all_prefix(es: Seq<Export>, d: Set<Seq<char>>, i: int)
    requires
        0 <= i <= es.len(),
    ensures
        render_all(es.subrange(0, i), d).0.is_prefix_of(render_all(es, d).0),
    decreases es.len(),
{
    if i == es.len() {
        assert(es.subrange(0, i) =~= es);
    } else {
        lemma_render_all_prefix(es.drop_last(), d, i);
        assert(es.drop_last().subrange(0, i) =~= es.subrange(0, i));
        let prev = render_all(es.drop_last(), d);
        lemma_prefix_append(render_all(es.subrange(0, i), d).0, prev.0, render(es.last(), prev.1).0);
    }
}

/// Writes the definition of `c` unless its name is declared already.
pub fn define<D: Definer>(c: &TypeDef, definer: &mut D) -> (r: Result<(), WriteError>)
    ensures
        final(definer).infallible() == old(definer).infallible(),
        old(definer).infallible() ==> r is Ok,
        final(definer).declared() == old(definer).declared().insert(def_name(*c)),
        r is Ok ==> final(definer).text() == old(definer).text() + define_all(
            seq![*c],
            old(definer).declared(),
        ).0,
        r is Err ==> between(
            old(definer).text(),
            final(definer).text(),
            old(definer).text() + define_all(seq![*c], old(definer).declared()).0,
        ),
{
    let ghost d0 = definer.declared();
    proof {
        reveal_with_fuel(define_all, 2);
    }
    assert(seq![*c].drop_last() =~= Seq::<TypeDef>::empty());
    if !definer.insert(c.name().as_str()) {
        assert(define_all(seq![*c], d0).0 =~= Seq::<char>::empty());
        assert(definer.text() =~= definer.text() + Seq::<char>::empty());
        return Ok(());
    }
    let text = c.definition();
    assert(define_all(seq![*c], d0).0 =~= def_text(*c));
    definer.write(text.as_str())
}

/// The full definition of `c`.
pub fn struct_definition(c: &CStruct) -> (r: String)
    ensures
        r@ == struct_text(*c),
{
    let mut s = String::new();
    s.append("typedef struct ");
    s.append(c.name.as_str());
    s.append(" {\n");
    let ghost head = s@;
    let mut i: usize = 0;
    while i < c.fields.len()
        invariant
            i <= c.fields.len(),
            s@ == head + fields_text(c.fields@.subrange(0, i as int)),
        decreases c.fields.len() - i,
    {
        let f = &c.fields[i];
        assert(c.fields@.subrange(0, i + 1).drop_last() =~= c.fields@.subrange(0, i as int));
        s.append("    ");
        s.append(f.ty.as_str());
        s.append(" ");
        s.append(f.name.as_str());
        s.append(";\n");
        i = i + 1;
        assert(s@ =~= head + fields_text(c.fields@.subrange(0, i as int)));
    }
    assert(c.fields@.subrange(0, c.fields.len() as int) =~= c.fields@);
    s.append("} ");
    s.append(c.name.as_str());
    s.append("_t;\n\n");
    assert(s@ =~= struct_text(*c));
    s
}

/// The character of decimal digit `d`, as text.
fn digit_str(d: u64) -> (r: &'static str)
    requires
        d < 10,
    ensures
        r@ == seq![digit_char(d as nat)],
{
    proof {
        reveal_strlit("0");
        reveal_strlit("1");
        reveal_strlit("2");
        reveal_strlit("3");
        reveal_strlit("4");
        reveal_strlit("5");
        reveal_strlit("6");
        reveal_strlit("7");
        reveal_strlit("8");
        reveal_strlit("9");
    }
    let r = match d {
        0 => "0",
        1 => "1",
        2 => "2",
        3 => "3",
        4 => "4",
        5 => "5",
        6 => "6",
        7 => "7",
        8 => "8",
        _ => "9",
    };
    assert(r@ =~= seq![digit_char(d as nat)]);
    r
}

/// Appends `n` in decimal to `s`.
pub fn push_decimal(n: u64, s: &mut String)
    ensures
        final(s)@ == old(s)@ + decimal(n as nat),
    decreases n,
{
    if n >= 10 {
        push_decimal(n / 10, s);
    }
    s.append(digit_str(n % 10));
    assert(final(s)@ =~= old(s)@ + decimal(n as nat)) by {
        if n >= 10 {
            assert(decimal(n as nat) == decimal((n / 10) as nat) + seq![digit_char((n % 10) as nat)]);
        }
    }
}

/// The full definition of `e`.
pub fn enum_definition(e: &CEnum) -> (r: String)
    ensures
        r@ == enum_text(*e),
{
    let mut s = String::new();
    s.append("typedef ");
    s.append(e.repr.as_str());
    s.append(" ");
    s.append(e.name.as_str());
    s.append("_t;\nenum ");
    s.append(e.name.as_str());
    s.append(" {\n");
    let ghost head = s@;
    let mut i: usize = 0;
    while i < e.variants.len()
        invariant
            i <= e.variants.len(),
            s@ == head + variants_text(e.variants@.subrange(0, i as int)),
        decreases e.variants.len() - i,
    {
        let v = &e.variants[i];
        assert(e.variants@.subrange(0, i + 1).drop_last() =~= e.variants@.subrange(0, i as int));
        s.append("    ");
        s.append(v.name.as_str());
        s.append(" = ");
        push_decimal(v.value, &mut s);
        s.append(",\n");
        i = i + 1;
        assert(s@ =~= head + variants_text(e.variants@.subrange(0, i as int)));
    }
    assert(e.variants@.subrange(0, e.variants.len() as int) =~= e.variants@);
    s.append("};\n\n");
    assert(s@ =~= enum_text(*e));
    s
}

impl TypeDef {
    /// The name this definition declares.
    pub fn name(&self) -> (r: &String)
        ensures
            r@ == def_name(*self),
    {
        match self {
            TypeDef::Struct(c) => &c.name,
            TypeDef::Enum(e) => &e.name,
        }
    }

    /// The full definition.
    pub fn definition(&self) -> (r: String)
        ensures
            r@ == def_text(*self),
    {
        match self {
            TypeDef::Struct(c) => struct_definition(c),
            TypeDef::Enum(e) => enum_definition(e),
        }
    }
}

/// The prototype of `f`.
pub fn prototype(f: &CFunction) -> (r: String)
    ensures
        r@ == proto_text(*f),
{
    let mut s = String::new();
    s.append(f.ret.as_str());
    s.append(" ");
    s.append(f.name.as_str());
    s.append(" (");
    let ghost head = s@;
    if f.params.len() == 0 {
        s.append("void");
    } else {
        let mut i: usize = 0;
        while i < f.params.len()
            invariant
                i <= f.params.len(),
                s@ == head + params_list(f.params@.subrange(0, i as int)),
            decreases f.params.len() - i,
        {
            let p = &f.params[i];
            let ghost ps = f.params@.subrange(0, i + 1);
            assert(ps.drop_last() =~= f.params@.subrange(0, i as int));
            if i == 0 {
                s.append("\n    ");
            } else {
                s.append(",\n    ");
            }
            s.append(p.ty.as_str());
            s.append(" ");
            s.append(p.name.as_str());
            i = i + 1;
            assert(s@ =~= head + params_list(f.params@.subrange(0, i as int)));
        }
        assert(f.params@.subrange(0, f.params.len() as int) =~= f.params@);
    }
    s.append(");\n\n");
    assert(s@ =~= proto_text(*f));
    s
}

proof fn lemma_define_one(c: TypeDef, d: Set<Seq<char>>)
    ensures
        define_all(seq![c], d).1 == d.insert(def_name(c)),
        define_all(seq![c], d).0 == (if d.contains(def_name(c)) {
            Seq::empty()
        } else {
            def_text(c)
        }),
{
    reveal_with_fuel(define_all, 2);
    assert(seq![c].drop_last() =~= Seq::<TypeDef>::empty());
    if d.contains(def_name(c)) {
        assert(d.insert(def_name(c)) =~= d);
    } else {
        assert(Seq::<char>::empty() + def_text(c) =~= def_text(c));
    }
}

impl Export {
    /// Writes this export through `definer`: the definitions of the types it
    /// uses that are not yet declared, then its own declaration.
    pub fn render<D: Definer>(&self, definer: &mut D) -> (r: Result<(), WriteError>)
        ensures
            final(definer).infallible() == old(definer).infallible(),
            old(definer).infallible() ==> r is Ok,
            r is Ok ==> final(definer).text() == old(definer).text() + render(
                *self,
                old(definer).declared(),
            ).0,
            r is Ok ==> final(definer).declared() == render(*self, old(definer).declared()).1,
            r is Err ==> between(
                old(definer).text(),
                final(definer).text(),
                old(definer).text() + render(*self, old(definer).declared()).0,
            ),
    {
        match self {
            Export::Type(t) => {
                proof {
                    lemma_define_one(*t, definer.declared());
                }
                define(t, definer)
            },
            Export::Function(f) => {
                let ghost t0 = definer.text();
                let ghost d0 = definer.declared();
                let mut i: usize = 0;
                while i < f.uses.len()
                    invariant
                        i <= f.uses.len(),
                        self is Function && self->Function_0 == *f,
                        old(definer).infallible() == definer.infallible(),
                        t0 == old(definer).text(),
                        d0 == old(definer).declared(),
                        definer.text() == t0 + define_all(f.uses@.subrange(0, i as int), d0).0,
                        definer.declared() == define_all(f.uses@.subrange(0, i as int), d0).1,
                    decreases f.uses.len() - i,
                {
                    let c = &f.uses[i];
                    let ghost ts = f.uses@.subrange(0, i + 1);
                    assert(ts.drop_last() =~= f.uses@.subrange(0, i as int));
                    proof {
                        lemma_define_one(*c, definer.declared());
                    }
                    let ghost before = definer.text();
                    let ghost dbefore = definer.declared();
                    let res = define(c, definer);
                    if res.is_err() {
                        proof {
                            let upto = define_all(ts, d0).0;
                            let all = define_all(f.uses@, d0).0;
                            assert(t0 + upto =~= before + define_all(seq![*c], dbefore).0);
                            lemma_define_all_prefix(f.uses@, d0, i + 1);
                            lemma_prefix_under(t0, upto, all);
                            lemma_prefix_append(t0 + upto, t0 + all, proto_text(*f));
                            lemma_prefix_trans(definer.text(), t0 + upto, t0 + all + proto_text(*f));
                            assert(t0 + all + proto_text(*f) =~= t0 + (all + proto_text(*f)));
                            lemma_prefix_under(t0, define_all(f.uses@.subrange(0, i as int), d0).0, all);
                            lemma_prefix_trans(t0, before, definer.text());
                        }
                        return res;
                    }
                    i = i + 1;
                    assert(definer.text() =~= t0 + define_all(
                        f.uses@.subrange(0, i as int),
                        d0,
                    ).0);
                }
                assert(f.uses@.subrange(0, f.uses.len() as int) =~= f.uses@);
                let text = prototype(f);
                let ghost before = definer.text();
                let res = definer.write(text.as_str());
                proof {
                    let all = define_all(f.uses@, d0).0;
                    assert(t0 + all + proto_text(*f) =~= t0 + (all + proto_text(*f)));
                    if res is Err {
                        lemma_prefix_under(t0, all, all);
                        lemma_prefix_trans(t0, before, definer.text());
                    }
                }
                res
            },
        }
    }
}

} // verus!
