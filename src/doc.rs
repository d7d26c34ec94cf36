//! The document model: an immutable tree of text fragments, breaks and
//! indentation scopes, and the renderer that lays it out as text.

use vstd::prelude::*;
use vstd::string::StringExecFns;

verus! {

/// Number of columns that one indentation scope adds.
pub const INDENT: usize = 2;

/// A document: text fragments composed with breaks and indentation scopes.
pub enum Doc {
    Empty,
    Text(String),
    Space,
    HardBreak,
    Concat(Box<Doc>, Box<Doc>),
    Nest(usize, Box<Doc>),
}

/// `n` space characters.
pub open spec fn spaces(n: nat) -> Seq<char>
    decreases n,
{
    if n == 0 {
        seq![]
    } else {
        spaces((n - 1) as nat).push(' ')
    }
}

/// A line terminator followed by the indentation `ind`.
pub open spec fn newline(ind: nat) -> Seq<char> {
    seq!['\n'] + spaces(ind)
}

/// The text of `d` when laid out with ambient indentation `ind`.
pub open spec fn layout(d: Doc, ind: nat) -> Seq<char>
    decreases d,
{
    match d {
        Doc::Empty => seq![],
        Doc::Text(s) => s@,
        Doc::Space => " "@,
        Doc::HardBreak => newline(ind),
        Doc::Concat(a, b) => layout(*a, ind) + layout(*b, ind),
        Doc::Nest(k, a) => layout(*a, (ind + k) as nat),
    }
}

/// The deepest indentation that laying out `d` at indentation `ind` reaches.
pub open spec fn reach(d: Doc, ind: nat) -> nat
    decreases d,
{
    match d {
        Doc::Concat(a, b) => {
            let (x, y) = (reach(*a, ind), reach(*b, ind));
            if x >= y { x } else { y }
        },
        Doc::Nest(k, a) => reach(*a, (ind + k) as nat),
        _ => ind,
    }
}

/// The text of `sep` placed between consecutive items of `items`.
pub open spec fn join(items: Seq<Seq<char>>, sep: Seq<char>) -> Seq<char>
    decreases items.len(),
{
    if items.len() == 0 {
        seq![]
    } else if items.len() == 1 {
        items[0]
    } else {
        join(items.drop_last(), sep) + sep + items.last()
    }
}

/// The items laid out at `ind`, with `sep` laid out between consecutive ones.
pub open spec fn join_layout(items: Seq<Doc>, sep: Doc, ind: nat) -> Seq<char>
    decreases items.len(),
{
    if items.len() == 0 {
        seq![]
    } else if items.len() == 1 {
        layout(items[0], ind)
    } else {
        layout(items[0], ind) + layout(sep, ind) + join_layout(items.drop_first(), sep, ind)
    }
}

/// Each item laid out at `ind`, each one preceded by `sep`.
pub open spec fn prefixed_layout(items: Seq<Doc>, sep: Doc, ind: nat) -> Seq<char>
    decreases items.len(),
{
    if items.len() == 0 {
        seq![]
    } else {
        layout(sep, ind) + layout(items[0], ind) + prefixed_layout(items.drop_first(), sep, ind)
    }
}

/// Laying out never goes below the ambient indentation.
pub proof fn lemma_reach_at_least(d: Doc, ind: nat)
    ensures
        reach(d, ind) >= ind,
    decreases d,
{
    match d {
        Doc::Concat(a, b) => {
            lemma_reach_at_least(*a, ind);
        },
        Doc::Nest(k, a) => {
            lemma_reach_at_least(*a, (ind + k) as nat);
        },
        _ => {},
    }
}

/// Interspersing places one separator before every item but the first, and
/// none after the last.
pub proof fn lemma_intersperse_separators(items: Seq<Doc>, sep: Doc, ind: nat)
    requires
        items.len() >= 1,
    ensures
        join_layout(items, sep, ind) == layout(items[0], ind) + prefixed_layout(
            items.drop_first(),
            sep,
            ind,
        ),
    decreases items.len(),
{
    let rest = items.drop_first();
    if items.len() >= 2 {
        lemma_intersperse_separators(rest, sep, ind);
        assert(rest.drop_first() == items.drop_first().drop_first());
        assert(prefixed_layout(rest, sep, ind) == layout(sep, ind) + layout(rest[0], ind)
            + prefixed_layout(rest.drop_first(), sep, ind));
        assert(join_layout(rest, sep, ind) == layout(rest[0], ind) + prefixed_layout(
            rest.drop_first(),
            sep,
            ind,
        ));
        assert(layout(items[0], ind) + layout(sep, ind) + join_layout(rest, sep, ind)
            =~= layout(items[0], ind) + prefixed_layout(rest, sep, ind));
    } else {
        assert(rest.len() == 0);
        assert(prefixed_layout(rest, sep, ind) == Seq::<char>::empty());
        assert(layout(items[0], ind) + prefixed_layout(rest, sep, ind) =~= layout(items[0], ind));
    }
}

/// Appends `n` spaces to `out`.
fn push_spaces(out: &mut String, n: usize)
    ensures
        final(out)@ == old(out)@ + spaces(n as nat),
{
    let mut i: usize = 0;
    while i < n
        invariant
            i <= n,
            out@ == old(out)@ + spaces(i as nat),
        decreases n - i,
    {
        proof {
            reveal_strlit(" ");
        }
        out.append(" ");
        assert(spaces((i + 1) as nat) == spaces(i as nat).push(' '));
        assert(old(out)@ + spaces(i as nat) + " "@ =~= old(out)@ + spaces((i + 1) as nat));
        i = i + 1;
    }
}

impl Doc {
    /// The empty document.
    pub fn nil() -> (r: Doc)
        ensures
            r == Doc::Empty,
    {
        Doc::Empty
    }

    /// A literal text fragment.
    pub fn text(s: &str) -> (r: Doc)
        ensures
            r is Text,
            forall|ind: nat| #[trigger] layout(r, ind) == s@,
    {
        Doc::Text(String::from_str(s))
    }

    /// A literal text fragment that takes ownership of `s`.
    pub fn string(s: String) -> (r: Doc)
        ensures
            r == Doc::Text(s),
    {
        Doc::Text(s)
    }

    /// A single space.
    pub fn space() -> (r: Doc)
        ensures
            r == Doc::Space,
    {
        Doc::Space
    }

    /// A forced line break.
    pub fn hardline() -> (r: Doc)
        ensures
            r == Doc::HardBreak,
    {
        Doc::HardBreak
    }

    /// `self` followed by `other`.
    pub fn append(self, other: Doc) -> (r: Doc)
        ensures
            r == Doc::Concat(Box::new(self), Box::new(other)),
            forall|ind: nat| #[trigger] layout(r, ind) == layout(self, ind) + layout(other, ind),
    {
        Doc::Concat(Box::new(self), Box::new(other))
    }

    /// `self` inside an indentation scope of `k` columns.
    pub fn nest(self, k: usize) -> (r: Doc)
        ensures
            r == Doc::Nest(k, Box::new(self)),
            forall|ind: nat| #[trigger] layout(r, ind) == layout(self, (ind + k) as nat),
    {
        Doc::Nest(k, Box::new(self))
    }

    /// `items` with a copy of `sep` between each consecutive pair.
    pub fn intersperse(items: Vec<Doc>, sep: Doc) -> (r: Doc)
        ensures
            forall|ind: nat| #[trigger] layout(r, ind) == join_layout(items@, sep, ind),
    {
        let ghost all = items@;
        let mut items = items;
        let n = items.len();
        if n == 0 {
            return Doc::Empty;
        }
        let mut r = items.pop().unwrap();
        assert(all.subrange(n - 1, n as int) =~= seq![all[n - 1]]);
        while items.len() > 0
            invariant
                1 <= n == all.len(),
                items.len() < n,
                items@ == all.take(items.len() as int),
                forall|ind: nat| #[trigger] layout(r, ind) == join_layout(
                    all.subrange(items.len() as int, n as int),
                    sep,
                    ind,
                ),
            decreases items.len(),
        {
            let ghost k = items.len() as int;
            let d = items.pop().unwrap();
            let ghost tail = all.subrange(k, n as int);
            let ghost whole = all.subrange(k - 1, n as int);
            assert(whole.drop_first() =~= tail);
            assert(whole[0] == d);
            assert(items@ =~= all.take(k - 1));
            r = d.append(sep.duplicate().append(r));
            assert forall|ind: nat| #[trigger] layout(r, ind) == join_layout(whole, sep, ind) by {
                assert(layout(d, ind) + (layout(sep, ind) + join_layout(tail, sep, ind))
                    =~= layout(d, ind) + layout(sep, ind) + join_layout(tail, sep, ind));
            }
        }
        assert(all.subrange(0, n as int) =~= all);
        r
    }

    /// Appends the layout of `self` at indentation `ind` to `out`. Returns
    /// false, having appended only part of it, where some indentation would
    /// exceed `usize::MAX`.
    pub fn render_into(&self, ind: usize, out: &mut String) -> (ok: bool)
        ensures
            ok == (reach(*self, ind as nat) <= usize::MAX),
            ok ==> final(out)@ == old(out)@ + layout(*self, ind as nat),
        decreases self,
    {
        match self {
            Doc::Empty => {
                assert(out@ =~= old(out)@ + layout(*self, ind as nat));
                true
            },
            Doc::Text(s) => {
                out.append(s.as_str());
                true
            },
            Doc::Space => {
                proof {
                    reveal_strlit(" ");
                }
                out.append(" ");
                true
            },
            Doc::HardBreak => {
                proof {
                    reveal_strlit("\n");
                }
                out.append("\n");
                push_spaces(out, ind);
                assert(out@ =~= old(out)@ + layout(*self, ind as nat));
                true
            },
            Doc::Concat(a, b) => {
                proof {
                    lemma_reach_at_least(**a, ind as nat);
                    lemma_reach_at_least(**b, ind as nat);
                }
                if !a.render_into(ind, out) {
                    return false;
                }
                let ok = b.render_into(ind, out);
                assert(ok ==> out@ =~= old(out)@ + layout(*self, ind as nat));
                ok
            },
            Doc::Nest(k, a) => {
                proof {
                    lemma_reach_at_least(**a, (ind + *k) as nat);
                }
                match ind.checked_add(*k) {
                    Some(inner) => a.render_into(inner, out),
                    None => false,
                }
            },
        }
    }

    /// The text of `self` laid out from indentation zero; `None` where some
    /// indentation would exceed `usize::MAX`.
    pub fn render(&self) -> (r: Option<String>)
        ensures
            r is Some <==> reach(*self, 0) <= usize::MAX,
            r matches Some(t) ==> t@ == layout(*self, 0),
    {
        let mut out = String::new();
        if self.render_into(0, &mut out) {
            assert(out@ =~= layout(*self, 0));
            Some(out)
        } else {
            None
        }
    }

    /// A document equal to `self`, built anew.
    pub fn duplicate(&self) -> (r: Doc)
        ensures
            r == *self,
        decreases self,
    {
        match self {
            Doc::Empty => Doc::Empty,
            Doc::Text(s) => Doc::Text(s.clone()),
            Doc::Space => Doc::Space,
            Doc::HardBreak => Doc::HardBreak,
            Doc::Concat(a, b) => Doc::Concat(Box::new(a.duplicate()), Box::new(b.duplicate())),
            Doc::Nest(k, a) => Doc::Nest(*k, Box::new(a.duplicate())),
        }
    }
}

} // verus!
