//! The types of the nodes of a graph and the colour of each: the types
//! of a kind stand in ascending order of their ids, and the colours of a
//! kind go to its types in that order.
use vstd::prelude::*;
use crate::error::GraphError;
use crate::graph::{Node, Type};
use crate::metadata::{ArtifactType, ExecutionType, Kind};
use crate::text::{hex, push_hex};

verus! {

/// A colour in three bytes.
#[derive(Debug, Clone, Copy, PartialEq, Eq, Hash, Structural)]
pub struct Color {
    pub red: u8,
    pub green: u8,
    pub blue: u8,
}

impl Color {
    /// The colour as `#rrggbb`.
    pub open spec fn text(self) -> Seq<char> {
        seq!['#'] + hex(self.red) + hex(self.green) + hex(self.blue)
    }

    /// The colour as `#rrggbb`.
    pub fn code(&self) -> (r: String)
        ensures
            r@ == self.text(),
    {
        let mut out = String::new();
        out.push('#');
        push_hex(&mut out, self.red);
        push_hex(&mut out, self.green);
        push_hex(&mut out, self.blue);
        assert(out@ =~= self.text());
        out
    }
}

/// Whether the numbers of a list stand in ascending order, none twice.
pub open spec fn ascending(s: Seq<i32>) -> bool {
    forall|i: int, j: int| 0 <= i < j < s.len() ==> s[i] < s[j]
}

/// An ascending list with `x` put in its place, unless the list holds it.
pub open spec fn inserted(s: Seq<i32>, x: i32) -> Seq<i32>
    decreases s.len(),
{
    if s.len() == 0 {
        seq![x]
    } else if s.last() < x {
        s.push(x)
    } else if s.last() == x {
        s
    } else {
        inserted(s.drop_last(), x).push(s.last())
    }
}

/// The ids of the types of the nodes of a kind, in ascending order, each
/// once.
pub open spec fn type_ids(nodes: Seq<Node>, kind: Kind) -> Seq<i32>
    decreases nodes.len(),
{
    if nodes.len() == 0 {
        Seq::empty()
    } else if nodes.last().id().kind() == kind {
        inserted(type_ids(nodes.drop_last(), kind), nodes.last().type_id())
    } else {
        type_ids(nodes.drop_last(), kind)
    }
}

/// Whether a node of the kind has the type.
pub open spec fn has_type(nodes: Seq<Node>, kind: Kind, type_id: i32) -> bool {
    exists|i: int|
        0 <= i < nodes.len() && (#[trigger] nodes[i]).id().kind() == kind && nodes[i].type_id()
            == type_id
}

/// The type of a kind and id that was given last.
pub open spec fn last_type(given: Seq<Type>, kind: Kind, id: i32) -> Option<Type>
    decreases given.len(),
{
    if given.len() == 0 {
        None
    } else if given.last().kind() == kind && given.last().id() == id {
        Some(given.last())
    } else {
        last_type(given.drop_last(), kind, id)
    }
}

/// The types of a kind for a list of ids, in the order of the list; or
/// the first id of the list for which no type was given.
pub open spec fn resolved(ids: Seq<i32>, kind: Kind, given: Seq<Type>) -> Result<Seq<Type>, i32>
    decreases ids.len(),
{
    if ids.len() == 0 {
        Ok(Seq::empty())
    } else {
        match resolved(ids.drop_last(), kind, given) {
            Err(id) => Err(id),
            Ok(types) => match last_type(given, kind, ids.last()) {
                Some(t) => Ok(types.push(t)),
                None => Err(ids.last()),
            },
        }
    }
}

/// The legend of a list of nodes: the types of the artifacts in ascending
/// order of their ids and after them those of the executions, and the
/// colour of each. The colours of a kind go to its types in that order,
/// and must be as many as the types.
pub open spec fn legend(
    nodes: Seq<Node>,
    given: Seq<Type>,
    artifact_colors: Seq<Color>,
    execution_colors: Seq<Color>,
) -> Result<(Seq<Type>, Seq<Color>), GraphError> {
    match resolved(type_ids(nodes, Kind::Artifact), Kind::Artifact, given) {
        Err(id) => Err(GraphError::MissingType(Kind::Artifact, id)),
        Ok(artifact_types) => match resolved(
            type_ids(nodes, Kind::Execution),
            Kind::Execution,
            given,
        ) {
            Err(id) => Err(GraphError::MissingType(Kind::Execution, id)),
            Ok(execution_types) => if artifact_colors.len() != artifact_types.len() {
                Err(GraphError::ColorCount(Kind::Artifact))
            } else if execution_colors.len() != execution_types.len() {
                Err(GraphError::ColorCount(Kind::Execution))
            } else {
                Ok((artifact_types + execution_types, artifact_colors + execution_colors))
            },
        },
    }
}

/// Where in a list the type of a kind and id stands.
pub open spec fn position(types: Seq<Type>, kind: Kind, id: i32) -> Option<int>
    decreases types.len(),
{
    if types.len() == 0 {
        None
    } else if types.last().kind() == kind && types.last().id() == id {
        Some(types.len() - 1)
    } else {
        position(types.drop_last(), kind, id)
    }
}

/// Putting a number into an ascending list leaves it ascending, and the
/// list holds the number and what it held.
pub proof fn lemma_inserted(s: Seq<i32>, x: i32)
    requires
        ascending(s),
    ensures
        ascending(inserted(s, x)),
        forall|y: i32| #[trigger] inserted(s, x).contains(y) <==> s.contains(y) || y == x,
    decreases s.len(),
{
    let r = inserted(s, x);
    if s.len() == 0 {
        assert(r[0] == x);
    } else if s.last() < x {
        assert(r[r.len() - 1] == x);
        assert forall|y: i32| #[trigger] r.contains(y) <==> s.contains(y) || y == x by {
            if s.contains(y) {
                let i = choose|i: int| 0 <= i < s.len() && s[i] == y;
                assert(r[i] == y);
            }
            if r.contains(y) {
                let i = choose|i: int| 0 <= i < r.len() && r[i] == y;
                if i < s.len() {
                    assert(s[i] == y);
                }
            }
        }
    } else if s.last() == x {
        assert(s[s.len() - 1] == x);
    } else {
        let front = s.drop_last();
        lemma_inserted(front, x);
        let f = inserted(front, x);
        assert forall|i: int, j: int| 0 <= i < j < r.len() implies r[i] < r[j] by {
            if j == r.len() - 1 {
                assert(f.contains(f[i]));
                if f[i] != x {
                    let k = choose|k: int| 0 <= k < front.len() && front[k] == f[i];
                    assert(s[k] == f[i]);
                }
            }
        }
        assert forall|y: i32| #[trigger] r.contains(y) <==> s.contains(y) || y == x by {
            if s.contains(y) {
                let i = choose|i: int| 0 <= i < s.len() && s[i] == y;
                if i < front.len() {
                    assert(front[i] == y);
                    assert(f.contains(y));
                    let k = choose|k: int| 0 <= k < f.len() && f[k] == y;
                    assert(r[k] == y);
                } else {
                    assert(r[r.len() - 1] == y);
                }
            }
            if y == x {
                assert(f.contains(x));
                let k = choose|k: int| 0 <= k < f.len() && f[k] == x;
                assert(r[k] == x);
            }
            if r.contains(y) {
                let i = choose|i: int| 0 <= i < r.len() && r[i] == y;
                if i < f.len() {
                    assert(f[i] == y);
                    assert(f.contains(y));
                    if y != x {
                        let k = choose|k: int| 0 <= k < front.len() && front[k] == y;
                        assert(s[k] == y);
                    }
                } else {
                    assert(s[s.len() - 1] == y);
                }
            }
        }
    }
}

/// The ids of the types of the nodes of a kind stand in ascending order,
/// and are the ids of the types that the nodes of the kind have.
pub proof fn lemma_type_ids(nodes: Seq<Node>, kind: Kind)
    ensures
        ascending(type_ids(nodes, kind)),
        forall|x: i32| #[trigger] type_ids(nodes, kind).contains(x) <==> has_type(nodes, kind, x),
    decreases nodes.len(),
{
    if nodes.len() > 0 {
        let front = nodes.drop_last();
        let last = nodes[nodes.len() - 1];
        lemma_type_ids(front, kind);
        lemma_inserted(type_ids(front, kind), last.type_id());
        let r = type_ids(nodes, kind);
        assert forall|x: i32| #[trigger] r.contains(x) <==> has_type(nodes, kind, x) by {
            if has_type(nodes, kind, x) {
                let i = choose|i: int|
                    0 <= i < nodes.len() && (#[trigger] nodes[i]).id().kind() == kind
                        && nodes[i].type_id() == x;
                if i < front.len() {
                    assert(front[i] == nodes[i]);
                    assert(has_type(front, kind, x));
                    assert(type_ids(front, kind).contains(x));
                }
                if last.id().kind() == kind {
                    assert(inserted(type_ids(front, kind), last.type_id()).contains(x));
                }
            }
            if r.contains(x) {
                if last.id().kind() == kind {
                    assert(inserted(type_ids(front, kind), last.type_id()).contains(x));
                }
                if type_ids(front, kind).contains(x) {
                    let i = choose|i: int|
                        0 <= i < front.len() && (#[trigger] front[i]).id().kind() == kind
                            && front[i].type_id() == x;
                    assert(nodes[i] == front[i]);
                } else {
                    assert(last.id().kind() == kind && last.type_id() == x);
                }
            }
        }
    }
}

/// Two ascending lists that hold the same numbers are one list.
pub proof fn lemma_ascending_unique(a: Seq<i32>, b: Seq<i32>)
    requires
        ascending(a),
        ascending(b),
        forall|x: i32|
            #![trigger a.contains(x)]
            #![trigger b.contains(x)]
            a.contains(x) <==> b.contains(x),
    ensures
        a == b,
    decreases a.len(),
{
    if a.len() == 0 {
        if b.len() > 0 {
            assert(b.contains(b[0]));
        }
        assert(a =~= b);
    } else {
        assert(a.contains(a[a.len() - 1]));
        let j = choose|j: int| 0 <= j < b.len() && b[j] == a.last();
        assert(b.contains(b[b.len() - 1]));
        let i = choose|i: int| 0 <= i < a.len() && a[i] == b.last();
        assert(a.last() == b.last());
        let fa = a.drop_last();
        let fb = b.drop_last();
        assert forall|x: i32|
            #![trigger fa.contains(x)]
            #![trigger fb.contains(x)]
            fa.contains(x) <==> fb.contains(x) by {
            if fa.contains(x) {
                let k = choose|k: int| 0 <= k < fa.len() && fa[k] == x;
                assert(a[k] == x);
                assert(a.contains(x));
                let m = choose|m: int| 0 <= m < b.len() && b[m] == x;
                assert(fb[m] == x);
            }
            if fb.contains(x) {
                let k = choose|k: int| 0 <= k < fb.len() && fb[k] == x;
                assert(b[k] == x);
                assert(b.contains(x));
                let m = choose|m: int| 0 <= m < a.len() && a[m] == x;
                assert(fa[m] == x);
            }
        }
        lemma_ascending_unique(fa, fb);
        assert(a =~= fa.push(a.last()));
        assert(b =~= fb.push(b.last()));
    }
}

/// The types that are resolved for a list of ids are as many as the ids,
/// each of the kind and with the id at its place.
pub proof fn lemma_resolved(ids: Seq<i32>, kind: Kind, given: Seq<Type>)
    ensures
        resolved(ids, kind, given) matches Ok(types) ==> types.len() == ids.len() && forall|i: int|
            0 <= i < ids.len() ==> (#[trigger] types[i]).kind() == kind && types[i].id() == ids[i]
                && last_type(given, kind, ids[i]) == Some(types[i]),
        resolved(ids, kind, given) matches Err(id) ==> ids.contains(id) && last_type(
            given,
            kind,
            id,
        ) is None,
    decreases ids.len(),
{
    if ids.len() > 0 {
        lemma_resolved(ids.drop_last(), kind, given);
        lemma_last_type(given, kind, ids.last());
        match resolved(ids.drop_last(), kind, given) {
            Err(id) => {
                let k = choose|k: int| 0 <= k < ids.drop_last().len() && ids.drop_last()[k] == id;
                assert(ids[k] == id);
            },
            Ok(types) => {
                assert(ids[ids.len() - 1] == ids.last());
            },
        }
    }
}

/// The type that was given last for a kind and id has that kind and id.
pub proof fn lemma_last_type(given: Seq<Type>, kind: Kind, id: i32)
    ensures
        last_type(given, kind, id) matches Some(t) ==> t.kind() == kind && t.id() == id
            && given.contains(t),
    decreases given.len(),
{
    if given.len() > 0 {
        if given.last().kind() == kind && given.last().id() == id {
            assert(given[given.len() - 1] == given.last());
        } else {
            lemma_last_type(given.drop_last(), kind, id);
            if last_type(given, kind, id) is Some {
                let t = last_type(given, kind, id).unwrap();
                let k = choose|k: int|
                    0 <= k < given.drop_last().len() && given.drop_last()[k] == t;
                assert(given[k] == t);
            }
        }
    }
}

/// Whether a list of types holds a type of the kind and id.
pub open spec fn has_entry(types: Seq<Type>, kind: Kind, id: i32) -> bool {
    exists|i: int| 0 <= i < types.len() && (#[trigger] types[i]).kind() == kind && types[i].id() == id
}

/// A legend holds exactly the types that the nodes have: a type of a
/// kind stands in it where, and only where, a node of that kind has it;
/// no type stands in it twice; and the types of the artifacts come first.
pub proof fn lemma_legend_partition(
    nodes: Seq<Node>,
    given: Seq<Type>,
    artifact_colors: Seq<Color>,
    execution_colors: Seq<Color>,
)
    requires
        legend(nodes, given, artifact_colors, execution_colors) is Ok,
    ensures
        ({
            let types = legend(nodes, given, artifact_colors, execution_colors).unwrap().0;
            let colors = legend(nodes, given, artifact_colors, execution_colors).unwrap().1;
            let split = type_ids(nodes, Kind::Artifact).len();
            &&& colors.len() == types.len()
            &&& forall|kind: Kind, id: i32| #[trigger]
                has_entry(types, kind, id) <==> has_type(nodes, kind, id)
            &&& forall|i: int, j: int|
                0 <= i < j < types.len() && (#[trigger] types[i]).kind() == (
                #[trigger] types[j]).kind() ==> types[i].id() < types[j].id()
            &&& forall|i: int|
                0 <= i < types.len() ==> ((#[trigger] types[i]).kind() is Artifact <==> i < split)
        }),
{
    let a_ids = type_ids(nodes, Kind::Artifact);
    let e_ids = type_ids(nodes, Kind::Execution);
    lemma_type_ids(nodes, Kind::Artifact);
    lemma_type_ids(nodes, Kind::Execution);
    lemma_resolved(a_ids, Kind::Artifact, given);
    lemma_resolved(e_ids, Kind::Execution, given);
    let a = resolved(a_ids, Kind::Artifact, given).unwrap();
    let e = resolved(e_ids, Kind::Execution, given).unwrap();
    let types = a + e;
    assert(legend(nodes, given, artifact_colors, execution_colors).unwrap().0 == types);
    assert forall|i: int| 0 <= i < types.len() implies ((#[trigger] types[i]).kind() is Artifact
        <==> i < a.len()) by {
        if i < a.len() {
            assert(types[i] == a[i]);
        } else {
            assert(types[i] == e[i - a.len()]);
        }
    }
    assert forall|i: int, j: int|
        0 <= i < j < types.len() && (#[trigger] types[i]).kind() == (#[trigger] types[j]).kind()
        implies types[i].id() < types[j].id() by {
        if j < a.len() {
            assert(types[i] == a[i] && types[j] == a[j]);
        } else if i >= a.len() {
            assert(types[i] == e[i - a.len()] && types[j] == e[j - a.len()]);
        } else {
            assert(types[i] == a[i] && types[j] == e[j - a.len()]);
        }
    }
    assert forall|kind: Kind, id: i32| #[trigger]
        has_entry(types, kind, id) <==> has_type(nodes, kind, id) by {
        if has_entry(types, kind, id) {
            let i = choose|i: int|
                0 <= i < types.len() && (#[trigger] types[i]).kind() == kind && types[i].id() == id;
            if i < a.len() {
                assert(types[i] == a[i]);
                assert(a_ids.contains(a_ids[i]));
            } else {
                assert(types[i] == e[i - a.len()]);
                assert(e_ids.contains(e_ids[i - a.len()]));
            }
        }
        if has_type(nodes, kind, id) {
            match kind {
                Kind::Artifact => {
                    assert(a_ids.contains(id));
                    let i = choose|i: int| 0 <= i < a_ids.len() && a_ids[i] == id;
                    assert(types[i] == a[i]);
                    assert(types[i].kind() == kind && types[i].id() == id);
                },
                Kind::Execution => {
                    assert(e_ids.contains(id));
                    let i = choose|i: int| 0 <= i < e_ids.len() && e_ids[i] == id;
                    assert(types[a.len() + i] == e[i]);
                    assert(types[a.len() + i].kind() == kind && types[a.len() + i].id() == id);
                },
            }
        }
    }
}

/// The legend, and with it the colour of every type, follows from which
/// types the nodes have: two lists of nodes that have the same types, in
/// whatever order the nodes stand, have the same legend.
pub proof fn lemma_legend_determined(
    first: Seq<Node>,
    second: Seq<Node>,
    given: Seq<Type>,
    artifact_colors: Seq<Color>,
    execution_colors: Seq<Color>,
)
    requires
        forall|kind: Kind, id: i32| #[trigger]
            has_type(first, kind, id) <==> has_type(second, kind, id),
    ensures
        legend(first, given, artifact_colors, execution_colors) == legend(
            second,
            given,
            artifact_colors,
            execution_colors,
        ),
{
    lemma_type_ids(first, Kind::Artifact);
    lemma_type_ids(second, Kind::Artifact);
    lemma_type_ids(first, Kind::Execution);
    lemma_type_ids(second, Kind::Execution);
    assert forall|x: i32|
        #![trigger type_ids(first, Kind::Artifact).contains(x)]
        #![trigger type_ids(second, Kind::Artifact).contains(x)]
        type_ids(first, Kind::Artifact).contains(x) <==> type_ids(
            second,
            Kind::Artifact,
        ).contains(x) by {
        assert(has_type(first, Kind::Artifact, x) <==> has_type(second, Kind::Artifact, x));
    }
    assert forall|x: i32|
        #![trigger type_ids(first, Kind::Execution).contains(x)]
        #![trigger type_ids(second, Kind::Execution).contains(x)]
        type_ids(first, Kind::Execution).contains(x) <==> type_ids(
            second,
            Kind::Execution,
        ).contains(x) by {
        assert(has_type(first, Kind::Execution, x) <==> has_type(second, Kind::Execution, x));
    }
    lemma_ascending_unique(type_ids(first, Kind::Artifact), type_ids(second, Kind::Artifact));
    lemma_ascending_unique(type_ids(first, Kind::Execution), type_ids(second, Kind::Execution));
}

/// A type of a kind and id stands in a list where the list has a place
/// for it.
pub proof fn lemma_position(types: Seq<Type>, kind: Kind, id: i32)
    ensures
        position(types, kind, id) matches Some(i) ==> 0 <= i < types.len() && types[i].kind()
            == kind && types[i].id() == id,
        position(types, kind, id) is Some <==> has_entry(types, kind, id),
    decreases types.len(),
{
    if types.len() > 0 {
        let front = types.drop_last();
        lemma_position(front, kind, id);
        if types.last().kind() == kind && types.last().id() == id {
            assert(types[types.len() - 1] == types.last());
        } else {
            if has_entry(front, kind, id) {
                let i = choose|i: int|
                    0 <= i < front.len() && (#[trigger] front[i]).kind() == kind && front[i].id()
                        == id;
                assert(types[i] == front[i]);
            }
            if has_entry(types, kind, id) {
                let i = choose|i: int|
                    0 <= i < types.len() && (#[trigger] types[i]).kind() == kind && types[i].id()
                        == id;
                assert(front[i] == types[i]);
            }
        }
    }
}

/// Puts a number into an ascending list, at its place, unless the list
/// holds it.
pub fn insert_sorted(list: &mut Vec<i32>, x: i32)
    ensures
        final(list)@ == inserted(old(list)@, x),
{
    let ghost s = list@;
    let mut i: usize = list.len();
    proof {
        assert(s.take(s.len() as int) =~= s);
        assert(inserted(s, x) + s.skip(s.len() as int) =~= inserted(s, x));
    }
    while i > 0 && list[i - 1] > x
        invariant
            list@ == s,
            0 <= i <= s.len(),
            inserted(s, x) == inserted(s.take(i as int), x) + s.skip(i as int),
        decreases i,
    {
        proof {
            let front = s.take(i as int);
            assert(front.last() == s[i - 1]);
            assert(front.drop_last() =~= s.take(i - 1));
            assert(inserted(front, x) == inserted(s.take(i - 1), x).push(s[i - 1]));
            assert(inserted(s.take(i - 1), x).push(s[i - 1]) + s.skip(i as int) =~= inserted(
                s.take(i - 1),
                x,
            ) + s.skip(i - 1));
        }
        i -= 1;
    }
    proof {
        if i > 0 {
            assert(s.take(i as int).last() == s[i - 1]);
        }
    }
    if i > 0 && list[i - 1] == x {
        assert(s.take(i as int) + s.skip(i as int) =~= s);
        return ;
    }
    list.insert(i, x);
    assert(list@ =~= inserted(s.take(i as int), x) + s.skip(i as int));
}

/// The ids of the types of the nodes of a kind, in ascending order, each
/// once.
pub fn sorted_type_ids(nodes: &Vec<Node>, kind: Kind) -> (r: Vec<i32>)
    ensures
        r@ == type_ids(nodes@, kind),
{
    let mut out: Vec<i32> = Vec::new();
    let n = nodes.len();
    let mut i: usize = 0;
    while i < n
        invariant
            n == nodes@.len(),
            0 <= i <= n,
            out@ == type_ids(nodes@.take(i as int), kind),
        decreases n - i,
    {
        assert(nodes@.take(i + 1).drop_last() =~= nodes@.take(i as int));
        if nodes[i].id().kind() == kind {
            insert_sorted(&mut out, nodes[i].type_id());
        }
        i += 1;
    }
    assert(nodes@.take(n as int) =~= nodes@);
    out
}

/// A type equal to the one given.
pub fn copy_type(t: &Type) -> (r: Type)
    ensures
        r == *t,
{
    match t {
        Type::Artifact(x) => Type::Artifact(ArtifactType { id: x.id, name: x.name.clone() }),
        Type::Execution(x) => Type::Execution(ExecutionType { id: x.id, name: x.name.clone() }),
    }
}

/// Where in a list the type of a kind and id stands that was given last.
pub fn find_type(types: &Vec<Type>, kind: Kind, id: i32) -> (r: Option<usize>)
    ensures
        match r {
            Some(i) => i < types@.len() && position(types@, kind, id) == Some(i as int)
                && last_type(types@, kind, id) == Some(types@[i as int]),
            None => position(types@, kind, id) is None && last_type(types@, kind, id) is None,
        },
{
    let mut i: usize = types.len();
    assert(types@.take(types@.len() as int) =~= types@);
    while i > 0
        invariant
            0 <= i <= types@.len(),
            position(types@, kind, id) == position(types@.take(i as int), kind, id),
            last_type(types@, kind, id) == last_type(types@.take(i as int), kind, id),
        decreases i,
    {
        proof {
            assert(types@.take(i as int).last() == types@[i - 1]);
            assert(types@.take(i as int).drop_last() =~= types@.take(i - 1));
        }
        if types[i - 1].kind() == kind && types[i - 1].id() == id {
            return Some(i - 1);
        }
        i -= 1;
    }
    None
}

/// Appends to `out` the types of a kind for a list of ids, in the order
/// of the list; fails at the first id for which no type was given.
pub fn resolve(
    ids: &Vec<i32>,
    kind: Kind,
    given: &Vec<Type>,
    out: &mut Vec<Type>,
) -> (r: Result<(), i32>)
    ensures
        match resolved(ids@, kind, given@) {
            Ok(types) => r is Ok && final(out)@ == old(out)@ + types,
            Err(id) => r == Err::<(), i32>(id),
        },
{
    let n = ids.len();
    let ghost before = out@;
    let mut i: usize = 0;
    assert(out@ =~= before + Seq::<Type>::empty());
    while i < n
        invariant
            n == ids@.len(),
            0 <= i <= n,
            resolved(ids@.take(i as int), kind, given@) matches Ok(types) && out@ == before + types,
        decreases n - i,
    {
        assert(ids@.take(i + 1).drop_last() =~= ids@.take(i as int));
        assert(ids@.take(i + 1).last() == ids@[i as int]);
        let ghost types = resolved(ids@.take(i as int), kind, given@).unwrap();
        match find_type(given, kind, ids[i]) {
            Some(k) => {
                out.push(copy_type(&given[k]));
                assert(out@ =~= before + types.push(given@[k as int]));
            },
            None => {
                proof {
                    lemma_resolved_fails(ids@, kind, given@, i as int);
                }
                return Err(ids[i]);
            },
        }
        i += 1;
    }
    assert(ids@.take(n as int) =~= ids@);
    Ok(())
}

/// Resolving a list fails at an id where resolving the ids before it
/// succeeds and no type was given for it.
pub proof fn lemma_resolved_fails(ids: Seq<i32>, kind: Kind, given: Seq<Type>, i: int)
    requires
        0 <= i < ids.len(),
        resolved(ids.take(i), kind, given) is Ok,
        last_type(given, kind, ids[i]) is None,
    ensures
        resolved(ids, kind, given) == Err::<Seq<Type>, i32>(ids[i]),
    decreases ids.len(),
{
    if i == ids.len() - 1 {
        assert(ids.drop_last() =~= ids.take(i));
    } else {
        assert(ids.drop_last().take(i) =~= ids.take(i));
        lemma_resolved_fails(ids.drop_last(), kind, given, i);
    }
}

/// The types of the nodes of a graph, and the colour of each.
#[derive(Debug)]
pub struct Legend {
    types: Vec<Type>,
    colors: Vec<Color>,
}

impl Legend {
    /// The types: those of the artifacts in ascending order of their ids,
    /// and after them those of the executions.
    pub closed spec fn types(&self) -> Seq<Type> {
        self.types@
    }

    /// The colours, each at the place of its type.
    pub closed spec fn colors(&self) -> Seq<Color> {
        self.colors@
    }

    /// Every type has its colour.
    pub open spec fn wf(&self) -> bool {
        self.colors().len() == self.types().len()
    }

    /// The colour of the type of a kind and id, where the legend holds it.
    pub open spec fn color(&self, kind: Kind, id: i32) -> Option<Color> {
        match position(self.types(), kind, id) {
            Some(i) => Some(self.colors()[i]),
            None => None,
        }
    }

    /// The name of the type of a kind and id, where the legend holds it.
    pub open spec fn name(&self, kind: Kind, id: i32) -> Option<Seq<char>> {
        match position(self.types(), kind, id) {
            Some(i) => Some(self.types()[i].spec_name()),
            None => None,
        }
    }

    /// The legend of a list of nodes, out of the types and the colours
    /// that were given: the types may stand in any order, and where two
    /// have one kind and id the later one counts; the colours of a kind
    /// are taken in the order in which they were given.
    pub fn new(
        nodes: &Vec<Node>,
        given: &Vec<Type>,
        artifact_colors: &Vec<Color>,
        execution_colors: &Vec<Color>,
    ) -> (r: Result<Legend, GraphError>)
        ensures
            match legend(nodes@, given@, artifact_colors@, execution_colors@) {
                Ok((types, colors)) => r matches Ok(l) && l.types() == types && l.colors() == colors
                    && l.wf(),
                Err(e) => r == Err::<Legend, GraphError>(e),
            },
    {
        let mut types: Vec<Type> = Vec::new();
        let artifact_ids = sorted_type_ids(nodes, Kind::Artifact);
        match resolve(&artifact_ids, Kind::Artifact, given, &mut types) {
            Ok(()) => {},
            Err(id) => {
                return Err(GraphError::MissingType(Kind::Artifact, id));
            },
        }
        let ghost artifact_types = types@;
        let execution_ids = sorted_type_ids(nodes, Kind::Execution);
        match resolve(&execution_ids, Kind::Execution, given, &mut types) {
            Ok(()) => {},
            Err(id) => {
                return Err(GraphError::MissingType(Kind::Execution, id));
            },
        }
        proof {
            lemma_resolved(artifact_ids@, Kind::Artifact, given@);
            lemma_resolved(execution_ids@, Kind::Execution, given@);
            assert(artifact_types =~= resolved(artifact_ids@, Kind::Artifact, given@).unwrap());
        }
        if artifact_colors.len() != artifact_ids.len() {
            return Err(GraphError::ColorCount(Kind::Artifact));
        }
        if execution_colors.len() != execution_ids.len() {
            return Err(GraphError::ColorCount(Kind::Execution));
        }
        let mut colors: Vec<Color> = Vec::new();
        let mut i: usize = 0;
        while i < artifact_colors.len()
            invariant
                0 <= i <= artifact_colors@.len(),
                colors@ == artifact_colors@.take(i as int),
            decreases artifact_colors@.len() - i,
        {
            colors.push(artifact_colors[i]);
            assert(colors@ =~= artifact_colors@.take(i + 1));
            i += 1;
        }
        assert(artifact_colors@.take(artifact_colors@.len() as int) =~= artifact_colors@);
        let mut j: usize = 0;
        while j < execution_colors.len()
            invariant
                0 <= j <= execution_colors@.len(),
                colors@ == artifact_colors@ + execution_colors@.take(j as int),
            decreases execution_colors@.len() - j,
        {
            colors.push(execution_colors[j]);
            assert(colors@ =~= artifact_colors@ + execution_colors@.take(j + 1));
            j += 1;
        }
        assert(execution_colors@.take(execution_colors@.len() as int) =~= execution_colors@);
        Ok(Legend { types, colors })
    }

    /// The types of the legend, in its order.
    pub fn entries(&self) -> (r: &Vec<Type>)
        ensures
            r@ == self.types(),
    {
        &self.types
    }

    /// The colours of the legend, each at the place of its type.
    pub fn palette(&self) -> (r: &Vec<Color>)
        ensures
            r@ == self.colors(),
    {
        &self.colors
    }

    /// The colour of the type of a kind and id, where the legend holds it.
    pub fn color_of(&self, kind: Kind, id: i32) -> (r: Option<Color>)
        requires
            self.wf(),
        ensures
            r == self.color(kind, id),
    {
        proof {
            lemma_position(self.types(), kind, id);
        }
        match find_type(&self.types, kind, id) {
            Some(i) => Some(self.colors[i]),
            None => None,
        }
    }

    /// The name of the type of a kind and id, where the legend holds it.
    pub fn name_of(&self, kind: Kind, id: i32) -> (r: Option<&str>)
        ensures
            match self.name(kind, id) {
                Some(name) => r matches Some(s) && s@ == name,
                None => r is None,
            },
    {
        proof {
            lemma_position(self.types(), kind, id);
        }
        match find_type(&self.types, kind, id) {
            Some(i) => Some(self.types[i].name()),
            None => None,
        }
    }
}

} // verus!
