//! Validation of diagram specifications: unique identifiers, resolved edge
//! references, capped container nesting, non-empty illustrative diagrams and
//! unique control identifiers.
use vstd::prelude::*;

use crate::model::{
    id_views, Container, Control, DiagramSpec, Edge, Element, Node, NodeId, ValidationError,
    ValidationFailure,
};
use crate::textseq::push_str;

verus! {

/// Containers may nest at most this deep; a container at nesting depth
/// `MAX_DEPTH` or more is refused.
pub const MAX_DEPTH: usize = 6;

/// The outcome of a walk: the identifiers seen, or the first failure.
pub type WalkResult = Result<Seq<Seq<char>>, ValidationFailure>;

/// One step of the identifier walk: entering a container at a nesting depth,
/// or meeting an identifier.
pub enum Check {
    Depth(int),
    Id(Seq<char>),
}

/// The walk of one element at a nesting depth, in document order: a node
/// contributes its identifier; a container contributes a depth check, its
/// identifier, then the walk of its children one level deeper.
pub open spec fn element_checks(e: Element, depth: int) -> Seq<Check>
    decreases e,
{
    match e {
        Element::Node(n) => seq![Check::Id(n.id@)],
        Element::Container(c) => {
            proof {
                assert(decreases_to!(e => c));
                assert(decreases_to!(c => c.children));
                assert(decreases_to!(c.children => c.children@));
            }
            seq![Check::Depth(depth), Check::Id(c.id@)] + elements_checks(c.children@, depth + 1)
        },
    }
}

/// The walk of a sequence of elements, one after the other.
pub open spec fn elements_checks(es: Seq<Element>, depth: int) -> Seq<Check>
    decreases es,
{
    if es.len() == 0 {
        Seq::empty()
    } else {
        proof {
            assert(decreases_to!(es => es.drop_last()));
            assert(decreases_to!(es => es.last()));
        }
        elements_checks(es.drop_last(), depth) + element_checks(es.last(), depth)
    }
}

/// The walk of the containers of one level after its single depth check: each
/// container's identifier, then its children one level deeper.
pub open spec fn container_list_checks(cs: Seq<Container>, depth: int) -> Seq<Check>
    decreases cs.len(),
{
    if cs.len() == 0 {
        Seq::empty()
    } else {
        container_list_checks(cs.drop_last(), depth) + seq![Check::Id(cs.last().id@)]
            + elements_checks(cs.last().children@, depth + 1)
    }
}

/// The walk of a list of containers at one nesting depth.
pub open spec fn containers_checks(cs: Seq<Container>, depth: int) -> Seq<Check> {
    seq![Check::Depth(depth)] + container_list_checks(cs, depth)
}

/// The identifier checks of a list of nodes.
pub open spec fn node_checks(nodes: Seq<Node>) -> Seq<Check> {
    nodes.map_values(|n: Node| Check::Id(n.id@))
}

/// The identifier of a control.
pub open spec fn control_id(c: Control) -> Seq<char> {
    match c {
        Control::Toggle { id, .. } => id@,
        Control::Slider { id, .. } => id@,
    }
}

/// The identifier checks of a list of controls.
pub open spec fn control_checks(controls: Seq<Control>) -> Seq<Check> {
    controls.map_values(|c: Control| Check::Id(control_id(c)))
}

/// Runs a walk against the identifiers `seen` so far: the first depth check at
/// `MAX_DEPTH` or beyond fails with `ContainerDepth`, the first identifier met
/// before fails with `DuplicateId`; when nothing fails, the result is `seen`
/// followed by the identifiers of the walk.
pub open spec fn run_checks(seen: Seq<Seq<char>>, checks: Seq<Check>) -> Result<
    Seq<Seq<char>>,
    ValidationFailure,
>
    decreases checks.len(),
{
    if checks.len() == 0 {
        Ok(seen)
    } else {
        match checks[0] {
            Check::Depth(d) => if d >= MAX_DEPTH {
                Err(ValidationFailure::ContainerDepth(MAX_DEPTH as nat))
            } else {
                run_checks(seen, checks.drop_first())
            },
            Check::Id(id) => if seen.contains(id) {
                Err(ValidationFailure::DuplicateId(id))
            } else {
                run_checks(seen.push(id), checks.drop_first())
            },
        }
    }
}

/// Meeting one identifier fails exactly when it was seen before.
pub proof fn lemma_run_id(seen: Seq<Seq<char>>, id: Seq<char>)
    ensures
        run_checks(seen, seq![Check::Id(id)]) == if seen.contains(id) {
            WalkResult::Err(ValidationFailure::DuplicateId(id))
        } else {
            WalkResult::Ok(seen.push(id))
        },
{
    assert(seq![Check::Id(id)].drop_first() =~= Seq::<Check>::empty());
    reveal_with_fuel(run_checks, 2);
}

/// A depth check fails exactly at `MAX_DEPTH` or beyond.
pub proof fn lemma_run_depth(seen: Seq<Seq<char>>, d: int)
    ensures
        run_checks(seen, seq![Check::Depth(d)]) == if d >= MAX_DEPTH {
            WalkResult::Err(ValidationFailure::ContainerDepth(MAX_DEPTH as nat))
        } else {
            WalkResult::Ok(seen)
        },
{
    assert(seq![Check::Depth(d)].drop_first() =~= Seq::<Check>::empty());
    reveal_with_fuel(run_checks, 2);
}

/// Running `a + b` runs `a`, then `b` from where `a` left off.
pub proof fn lemma_run_checks_append(seen: Seq<Seq<char>>, a: Seq<Check>, b: Seq<Check>)
    ensures
        run_checks(seen, a + b) == match run_checks(seen, a) {
            Ok(after) => run_checks(after, b),
            Err(e) => Err(e),
        },
    decreases a.len(),
{
    if a.len() == 0 {
        assert(a + b =~= b);
    } else {
        assert((a + b).drop_first() =~= a.drop_first() + b);
        assert((a + b)[0] == a[0]);
        match a[0] {
            Check::Depth(d) => {
                lemma_run_checks_append(seen, a.drop_first(), b);
            },
            Check::Id(id) => {
                lemma_run_checks_append(seen.push(id), a.drop_first(), b);
            },
        }
    }
}

/// The problem of one edge against the known identifiers, if any: a
/// self-referencing edge, then an unknown source, then an unknown target.
pub open spec fn edge_problem(e: Edge, known: Seq<Seq<char>>) -> Option<ValidationFailure> {
    if e.from@ == e.to@ {
        Some(ValidationFailure::InvalidEdge("Self-referencing edge: "@ + e.from@))
    } else if !known.contains(e.from@) {
        Some(ValidationFailure::MissingReference(e.from@))
    } else if !known.contains(e.to@) {
        Some(ValidationFailure::MissingReference(e.to@))
    } else {
        None
    }
}

/// The outcome of the edge checks: the problem of the first edge that has one.
pub open spec fn edges_outcome(edges: Seq<Edge>, known: Seq<Seq<char>>) -> Result<
    (),
    ValidationFailure,
>
    decreases edges.len(),
{
    if edges.len() == 0 {
        Ok(())
    } else {
        match edge_problem(edges[0], known) {
            Some(p) => Err(p),
            None => edges_outcome(edges.drop_first(), known),
        }
    }
}

/// A walk's outcome with the identifiers it collected dropped.
pub open spec fn walk_outcome(r: Result<Seq<Seq<char>>, ValidationFailure>) -> Result<
    (),
    ValidationFailure,
> {
    match r {
        Ok(_) => Ok(()),
        Err(e) => Err(e),
    }
}

/// The outcome of the control walk: a repeated control identifier is reported
/// as a duplicate control identifier.
pub open spec fn control_outcome(r: Result<Seq<Seq<char>>, ValidationFailure>) -> Result<
    (),
    ValidationFailure,
> {
    match r {
        Ok(_) => Ok(()),
        Err(ValidationFailure::DuplicateId(id)) => Err(ValidationFailure::DuplicateControlId(id)),
        Err(e) => Err(e),
    }
}

/// The outcome of validating a diagram specification.
///
/// * flowchart: the node identifiers are walked, then the edges are checked
///   against them;
/// * structural: the container tree is walked from depth 0, then the edges are
///   checked against every identifier in it;
/// * illustrative: an empty element list is refused, else the elements are walked;
/// * interactive: the base diagram is validated, then the control identifiers
///   are walked on their own, a repeat failing as a duplicate control id.
pub open spec fn diagram_outcome(spec: DiagramSpec) -> Result<(), ValidationFailure>
    decreases spec,
{
    match spec {
        DiagramSpec::Flowchart(flow) => match run_checks(Seq::empty(), node_checks(flow.nodes@)) {
            Ok(known) => edges_outcome(flow.edges@, known),
            Err(e) => Err(e),
        },
        DiagramSpec::Structure(s) => match run_checks(
            Seq::empty(),
            containers_checks(s.containers@, 0),
        ) {
            Ok(known) => edges_outcome(s.edges@, known),
            Err(e) => Err(e),
        },
        DiagramSpec::Illustrative(ill) => if ill.elements@.len() == 0 {
            Err(ValidationFailure::EmptyDiagram)
        } else {
            walk_outcome(run_checks(Seq::empty(), elements_checks(ill.elements@, 0)))
        },
        DiagramSpec::Interactive(inter) => match diagram_outcome(*inter.base) {
            Ok(()) => control_outcome(run_checks(Seq::empty(), control_checks(inter.controls@))),
            Err(e) => Err(e),
        },
    }
}

/// A result with its error taken by its view.
pub open spec fn result_view(r: Result<(), ValidationError>) -> Result<(), ValidationFailure> {
    match r {
        Ok(()) => Ok(()),
        Err(e) => Err(e@),
    }
}

/// Whether the walk of `checks` from `before` gives `r`, leaving `after`
/// as the identifiers seen when it succeeds.
pub open spec fn walked(
    r: Result<(), ValidationError>,
    before: Seq<NodeId>,
    after: Seq<NodeId>,
    checks: Seq<Check>,
) -> bool {
    match r {
        Ok(()) => run_checks(id_views(before), checks) == WalkResult::Ok(id_views(after)),
        Err(e) => run_checks(id_views(before), checks) == WalkResult::Err(e@),
    }
}

/// Whether `id` is among `known`.
pub(crate) fn contains_id(known: &Vec<NodeId>, id: &NodeId) -> (r: bool)
    ensures
        r == id_views(known@).contains(id@),
{
    let mut i: usize = 0;
    while i < known.len()
        invariant
            0 <= i <= known@.len(),
            forall|j: int| 0 <= j < i ==> known@[j]@ != id@,
        decreases known@.len() - i,
    {
        if known[i].same_as(id) {
            assert(id_views(known@)[i as int] == id@);
            return true;
        }
        i += 1;
    }
    proof {
        if id_views(known@).contains(id@) {
            let j = choose|j: int| 0 <= j < id_views(known@).len() && id_views(known@)[j] == id@;
            assert(known@[j]@ == id@);
        }
    }
    false
}

fn track_id(id: &NodeId, seen: &mut Vec<NodeId>) -> (r: Result<(), ValidationError>)
    ensures
        walked(r, old(seen)@, final(seen)@, seq![Check::Id(id@)]),
{
    proof {
        lemma_run_id(id_views(seen@), id@);
    }
    if contains_id(seen, id) {
        return Err(ValidationError::DuplicateId(id.clone()));
    }
    let ghost before = seen@;
    seen.push(id.clone());
    proof {
        assert(id_views(seen@) =~= id_views(before).push(id@));
    }
    Ok(())
}

/// Walks one container found among the children of a level: its depth check,
/// its identifier, then its children.
fn collect_container(container: &Container, depth: usize, ids: &mut Vec<NodeId>) -> (r: Result<
    (),
    ValidationError,
>)
    requires
        depth <= MAX_DEPTH,
    ensures
        walked(
            r,
            old(ids)@,
            final(ids)@,
            element_checks(Element::Container(*container), depth as int),
        ),
    decreases MAX_DEPTH - depth, 0nat,
{
    let ghost before = ids@;
    let ghost rest = elements_checks(container.children@, depth + 1);
    proof {
        assert(element_checks(Element::Container(*container), depth as int) =~= seq![
            Check::Depth(depth as int),
        ] + (seq![Check::Id(container.id@)] + rest));
        lemma_run_checks_append(
            id_views(before),
            seq![Check::Depth(depth as int)],
            seq![Check::Id(container.id@)] + rest,
        );
        lemma_run_depth(id_views(before), depth as int);
    }
    if depth >= MAX_DEPTH {
        return Err(ValidationError::ContainerDepth { limit: MAX_DEPTH });
    }
    let tracked_r = track_id(&container.id, ids);
    proof {
        lemma_run_checks_append(id_views(before), seq![Check::Id(container.id@)], rest);
    }
    match tracked_r {
        Err(e) => {
            return Err(e);
        },
        Ok(()) => {},
    }
    collect_elements(&container.children, depth + 1, ids)
}

/// The walk of containers appended is the walk of each part in turn.
proof fn lemma_container_list_append(a: Seq<Container>, b: Seq<Container>, depth: int)
    ensures
        container_list_checks(a + b, depth) == container_list_checks(a, depth)
            + container_list_checks(b, depth),
    decreases b.len(),
{
    if b.len() == 0 {
        assert(a + b =~= a);
        assert(container_list_checks(b, depth) =~= Seq::<Check>::empty());
        assert(container_list_checks(a, depth) + Seq::<Check>::empty() =~= container_list_checks(
            a,
            depth,
        ));
    } else {
        assert((a + b).drop_last() =~= a + b.drop_last());
        assert((a + b).last() == b.last());
        lemma_container_list_append(a, b.drop_last(), depth);
        let x = container_list_checks(a, depth);
        let y = container_list_checks(b.drop_last(), depth);
        let z = seq![Check::Id(b.last().id@)] + elements_checks(b.last().children@, depth + 1);
        assert(x + y + seq![Check::Id(b.last().id@)] + elements_checks(
            b.last().children@,
            depth + 1,
        ) =~= x + (y + seq![Check::Id(b.last().id@)] + elements_checks(
            b.last().children@,
            depth + 1,
        )));
    }
}

/// The walk of elements appended is the walk of each part in turn.
proof fn lemma_elements_append(a: Seq<Element>, b: Seq<Element>, depth: int)
    ensures
        elements_checks(a + b, depth) == elements_checks(a, depth) + elements_checks(b, depth),
    decreases b.len(),
{
    if b.len() == 0 {
        assert(a + b =~= a);
        assert(elements_checks(b, depth) =~= Seq::<Check>::empty());
        assert(elements_checks(a, depth) + Seq::<Check>::empty() =~= elements_checks(a, depth));
    } else {
        assert((a + b).drop_last() =~= a + b.drop_last());
        assert((a + b).last() == b.last());
        lemma_elements_append(a, b.drop_last(), depth);
        let x = elements_checks(a, depth);
        let y = elements_checks(b.drop_last(), depth);
        let z = element_checks(b.last(), depth);
        assert(x + y + z =~= x + (y + z));
    }
}

/// Walks a list of containers at one level: a single depth check for the level,
/// then each container's identifier and children.
fn collect_containers(containers: &Vec<Container>, depth: usize, ids: &mut Vec<NodeId>) -> (r:
    Result<(), ValidationError>)
    requires
        depth <= MAX_DEPTH,
    ensures
        walked(r, old(ids)@, final(ids)@, containers_checks(containers@, depth as int)),
{
    let ghost before = ids@;
    let ghost cs = containers@;
    let ghost d = depth as int;
    proof {
        lemma_run_checks_append(
            id_views(before),
            seq![Check::Depth(d)],
            container_list_checks(cs, d),
        );
        lemma_run_depth(id_views(before), d);
    }
    if depth >= MAX_DEPTH {
        return Err(ValidationError::ContainerDepth { limit: MAX_DEPTH });
    }
    proof {
        assert(cs.take(0) =~= Seq::<Container>::empty());
    }
    let mut i: usize = 0;
    while i < containers.len()
        invariant
            0 <= i <= cs.len(),
            cs == containers@,
            before == old(ids)@,
            d == depth,
            depth < MAX_DEPTH,
            run_checks(id_views(before), containers_checks(cs, d)) == run_checks(
                id_views(before),
                container_list_checks(cs, d),
            ),
            run_checks(id_views(before), container_list_checks(cs.take(i as int), d)) == WalkResult::Ok(
                id_views(ids@),
            ),
        decreases cs.len() - i,
    {
        let c = &containers[i];
        let ghost mid = ids@;
        let ghost step = seq![Check::Id(c.id@)] + elements_checks(c.children@, d + 1);
        proof {
            assert(cs.take(i + 1).drop_last() =~= cs.take(i as int));
            assert(container_list_checks(cs.take(i + 1), d) == container_list_checks(
                cs.take(i as int),
                d,
            ) + step);
            lemma_run_checks_append(
                id_views(before),
                container_list_checks(cs.take(i as int), d),
                step,
            );
            lemma_run_checks_append(
                id_views(mid),
                seq![Check::Id(c.id@)],
                elements_checks(c.children@, d + 1),
            );
            assert(cs =~= cs.take(i + 1) + cs.skip(i + 1));
            lemma_container_list_append(cs.take(i + 1), cs.skip(i + 1), d);
            lemma_run_checks_append(
                id_views(before),
                container_list_checks(cs.take(i + 1), d),
                container_list_checks(cs.skip(i + 1), d),
            );
        }
        match track_id(&c.id, ids) {
            Err(e) => {
                return Err(e);
            },
            Ok(()) => {},
        }
        match collect_elements(&c.children, depth + 1, ids) {
            Err(e) => {
                return Err(e);
            },
            Ok(()) => {},
        }
        i += 1;
    }
    proof {
        assert(cs.take(cs.len() as int) =~= cs);
    }
    Ok(())
}

/// Walks a list of elements at one nesting depth.
fn collect_elements(elements: &Vec<Element>, depth: usize, ids: &mut Vec<NodeId>) -> (r: Result<
    (),
    ValidationError,
>)
    requires
        depth <= MAX_DEPTH,
    ensures
        walked(r, old(ids)@, final(ids)@, elements_checks(elements@, depth as int)),
    decreases MAX_DEPTH - depth, 1nat,
{
    let ghost before = ids@;
    let ghost es = elements@;
    let ghost d = depth as int;
    proof {
        assert(es.take(0) =~= Seq::<Element>::empty());
    }
    let mut i: usize = 0;
    while i < elements.len()
        invariant
            0 <= i <= es.len(),
            es == elements@,
            before == old(ids)@,
            d == depth,
            depth <= MAX_DEPTH,
            run_checks(id_views(before), elements_checks(es.take(i as int), d)) == WalkResult::Ok(
                id_views(ids@),
            ),
        decreases es.len() - i,
    {
        let e = &elements[i];
        let ghost mid = ids@;
        proof {
            assert(es.take(i + 1).drop_last() =~= es.take(i as int));
            assert(elements_checks(es.take(i + 1), d) == elements_checks(es.take(i as int), d)
                + element_checks(es[i as int], d));
            lemma_run_checks_append(
                id_views(before),
                elements_checks(es.take(i as int), d),
                element_checks(es[i as int], d),
            );
            assert(es =~= es.take(i + 1) + es.skip(i + 1));
            lemma_elements_append(es.take(i + 1), es.skip(i + 1), d);
            lemma_run_checks_append(
                id_views(before),
                elements_checks(es.take(i + 1), d),
                elements_checks(es.skip(i + 1), d),
            );
        }
        let step = match e {
            Element::Node(node) => track_id(&node.id, ids),
            Element::Container(container) => collect_container(container, depth, ids),
        };
        match step {
            Err(err) => {
                return Err(err);
            },
            Ok(()) => {},
        }
        i += 1;
    }
    proof {
        assert(es.take(es.len() as int) =~= es);
    }
    Ok(())
}

fn validate_edges_exist(edges: &Vec<Edge>, known: &Vec<NodeId>) -> (r: Result<(), ValidationError>)
    ensures
        result_view(r) == edges_outcome(edges@, id_views(known@)),
{
    let ghost k = id_views(known@);
    let mut i: usize = 0;
    proof {
        assert(edges@.skip(0) =~= edges@);
    }
    while i < edges.len()
        invariant
            0 <= i <= edges@.len(),
            k == id_views(known@),
            edges_outcome(edges@, k) == edges_outcome(edges@.skip(i as int), k),
        decreases edges@.len() - i,
    {
        let edge = &edges[i];
        proof {
            assert(edges@.skip(i as int)[0] == edges@[i as int]);
            assert(edges@.skip(i as int).drop_first() =~= edges@.skip(i + 1));
        }
        if edge.from.same_as(&edge.to) {
            let mut msg = String::from_str("Self-referencing edge: ");
            push_str(&mut msg, edge.from.as_str());
            return Err(ValidationError::InvalidEdge(msg));
        }
        if !contains_id(known, &edge.from) {
            return Err(ValidationError::MissingReference(edge.from.clone()));
        }
        if !contains_id(known, &edge.to) {
            return Err(ValidationError::MissingReference(edge.to.clone()));
        }
        i += 1;
    }
    Ok(())
}

fn validate_nodes_edges(nodes: &Vec<Node>, edges: &Vec<Edge>) -> (r: Result<(), ValidationError>)
    ensures
        result_view(r) == match run_checks(Seq::empty(), node_checks(nodes@)) {
            Ok(known) => edges_outcome(edges@, known),
            Err(e) => Err(e),
        },
{
    let mut seen: Vec<NodeId> = Vec::new();
    let ghost all = node_checks(nodes@);
    proof {
        assert(id_views(seen@) =~= Seq::<Seq<char>>::empty());
    }
    let mut i: usize = 0;
    while i < nodes.len()
        invariant
            0 <= i <= nodes@.len(),
            all == node_checks(nodes@),
            run_checks(Seq::empty(), all.take(i as int)) == WalkResult::Ok(id_views(seen@)),
        decreases nodes@.len() - i,
    {
        let ghost mid = seen@;
        proof {
            assert(all.take(i + 1) =~= all.take(i as int) + seq![Check::Id(nodes@[i as int].id@)]);
            lemma_run_checks_append(
                Seq::empty(),
                all.take(i as int),
                seq![Check::Id(nodes@[i as int].id@)],
            );
            assert(all =~= all.take(i + 1) + all.skip(i + 1));
            lemma_run_checks_append(Seq::empty(), all.take(i + 1), all.skip(i + 1));
        }
        match track_id(&nodes[i].id, &mut seen) {
            Err(e) => {
                return Err(e);
            },
            Ok(()) => {},
        }
        i += 1;
    }
    proof {
        assert(all.take(nodes@.len() as int) =~= all);
    }
    validate_edges_exist(edges, &seen)
}

fn validate_controls(controls: &Vec<Control>) -> (r: Result<(), ValidationError>)
    ensures
        result_view(r) == control_outcome(run_checks(Seq::empty(), control_checks(controls@))),
{
    let mut seen: Vec<NodeId> = Vec::new();
    let ghost all = control_checks(controls@);
    proof {
        assert(id_views(seen@) =~= Seq::<Seq<char>>::empty());
    }
    let mut i: usize = 0;
    while i < controls.len()
        invariant
            0 <= i <= controls@.len(),
            all == control_checks(controls@),
            run_checks(Seq::empty(), all.take(i as int)) == WalkResult::Ok(id_views(seen@)),
        decreases controls@.len() - i,
    {
        let cid = match &controls[i] {
            Control::Toggle { id, .. } | Control::Slider { id, .. } => id,
        };
        proof {
            assert(cid@ == control_id(controls@[i as int]));
            assert(all.take(i + 1) =~= all.take(i as int) + seq![Check::Id(cid@)]);
            lemma_run_checks_append(Seq::empty(), all.take(i as int), seq![Check::Id(cid@)]);
            assert(all =~= all.take(i + 1) + all.skip(i + 1));
            lemma_run_checks_append(Seq::empty(), all.take(i + 1), all.skip(i + 1));
        }
        match track_id(cid, &mut seen) {
            Err(ValidationError::DuplicateId(id)) => {
                return Err(ValidationError::DuplicateControlId(id));
            },
            Err(e) => {
                return Err(e);
            },
            Ok(()) => {},
        }
        i += 1;
    }
    proof {
        assert(all.take(controls@.len() as int) =~= all);
    }
    Ok(())
}

/// Validate a diagram specification for structural integrity.
///
/// Ensures IDs are unique, edges reference existing elements, container depth is capped,
/// and diagram-specific invariants (non-empty illustrative specs, control IDs) hold.
pub fn validate_spec(spec: &DiagramSpec) -> (r: Result<(), ValidationError>)
    ensures
        result_view(r) == diagram_outcome(*spec),
    decreases spec,
{
    match spec {
        DiagramSpec::Flowchart(flow) => validate_nodes_edges(&flow.nodes, &flow.edges),
        DiagramSpec::Structure(structure) => {
            let mut ids: Vec<NodeId> = Vec::new();
            proof {
                assert(id_views(ids@) =~= Seq::<Seq<char>>::empty());
            }
            match collect_containers(&structure.containers, 0, &mut ids) {
                Err(e) => {
                    return Err(e);
                },
                Ok(()) => {},
            }
            validate_edges_exist(&structure.edges, &ids)
        },
        DiagramSpec::Illustrative(illustrative) => {
            if illustrative.elements.len() == 0 {
                return Err(ValidationError::EmptyDiagram);
            }
            let mut ids: Vec<NodeId> = Vec::new();
            proof {
                assert(id_views(ids@) =~= Seq::<Seq<char>>::empty());
            }
            collect_elements(&illustrative.elements, 0, &mut ids)
        },
        DiagramSpec::Interactive(interactive) => {
            match validate_spec(&interactive.base) {
                Err(e) => {
                    return Err(e);
                },
                Ok(()) => {},
            }
            validate_controls(&interactive.controls)
        },
    }
}

/// The identifiers a walk meets, in order.
pub open spec fn walk_ids(checks: Seq<Check>) -> Seq<Seq<char>>
    decreases checks.len(),
{
    if checks.len() == 0 {
        Seq::empty()
    } else {
        match checks[0] {
            Check::Depth(_) => walk_ids(checks.drop_first()),
            Check::Id(id) => seq![id] + walk_ids(checks.drop_first()),
        }
    }
}

/// Every container a walk enters lies less than `MAX_DEPTH` deep.
pub open spec fn depth_capped(checks: Seq<Check>) -> bool {
    forall|i: int|
        0 <= i < checks.len() ==> match #[trigger] checks[i] {
            Check::Depth(d) => d < MAX_DEPTH,
            Check::Id(_) => true,
        }
}

/// `ids` are pairwise distinct and none of them is among `seen`.
pub open spec fn fresh_ids(seen: Seq<Seq<char>>, ids: Seq<Seq<char>>) -> bool {
    &&& ids.no_duplicates()
    &&& forall|i: int| 0 <= i < ids.len() ==> !seen.contains(#[trigger] ids[i])
}

/// Every edge joins two different identifiers, both of them known.
pub open spec fn edges_resolved(edges: Seq<Edge>, known: Seq<Seq<char>>) -> bool {
    forall|i: int|
        0 <= i < edges.len() ==> {
            &&& (#[trigger] edges[i]).from@ != edges[i].to@
            &&& known.contains(edges[i].from@)
            &&& known.contains(edges[i].to@)
        }
}

/// A well-formed specification: the identifiers of each walk are pairwise
/// distinct, no container nests `MAX_DEPTH` deep, every edge joins two
/// different known identifiers, an illustrative diagram has elements, and the
/// base of an interactive diagram is itself well formed.
pub open spec fn well_formed(spec: DiagramSpec) -> bool
    decreases spec,
{
    match spec {
        DiagramSpec::Flowchart(flow) => {
            let ids = walk_ids(node_checks(flow.nodes@));
            &&& fresh_ids(Seq::empty(), ids)
            &&& edges_resolved(flow.edges@, ids)
        },
        DiagramSpec::Structure(s) => {
            let checks = containers_checks(s.containers@, 0);
            &&& depth_capped(checks)
            &&& fresh_ids(Seq::empty(), walk_ids(checks))
            &&& edges_resolved(s.edges@, walk_ids(checks))
        },
        DiagramSpec::Illustrative(ill) => {
            let checks = elements_checks(ill.elements@, 0);
            &&& ill.elements@.len() > 0
            &&& depth_capped(checks)
            &&& fresh_ids(Seq::empty(), walk_ids(checks))
        },
        DiagramSpec::Interactive(inter) => {
            &&& well_formed(*inter.base)
            &&& fresh_ids(Seq::empty(), walk_ids(control_checks(inter.controls@)))
        },
    }
}

/// A walk succeeds exactly when it enters no container too deep and meets
/// only fresh, pairwise distinct identifiers; it then yields `seen` followed
/// by those identifiers.
pub proof fn lemma_run_checks_ok(seen: Seq<Seq<char>>, checks: Seq<Check>)
    ensures
        run_checks(seen, checks) is Ok <==> (depth_capped(checks) && fresh_ids(
            seen,
            walk_ids(checks),
        )),
        run_checks(seen, checks) is Ok ==> run_checks(seen, checks) == WalkResult::Ok(
            seen + walk_ids(checks),
        ),
    decreases checks.len(),
{
    if checks.len() == 0 {
        assert(seen + walk_ids(checks) =~= seen);
    } else {
        let rest = checks.drop_first();
        assert forall|i: int| 0 <= i < rest.len() implies rest[i] == checks[i + 1] by {}
        match checks[0] {
            Check::Depth(d) => {
                lemma_run_checks_ok(seen, rest);
                if depth_capped(checks) {
                    assert forall|i: int| 0 <= i < rest.len() implies match #[trigger] rest[i] {
                        Check::Depth(d) => d < MAX_DEPTH,
                        Check::Id(_) => true,
                    } by {
                        assert(rest[i] == checks[i + 1]);
                    }
                }
                if d < MAX_DEPTH && depth_capped(rest) {
                    assert forall|i: int| 0 <= i < checks.len() implies match #[trigger] checks[i] {
                        Check::Depth(d) => d < MAX_DEPTH,
                        Check::Id(_) => true,
                    } by {
                        if i > 0 {
                            assert(checks[i] == rest[i - 1]);
                        }
                    }
                }
                if !(d < MAX_DEPTH) {
                    assert(match checks[0] {
                        Check::Depth(d) => d < MAX_DEPTH,
                        Check::Id(_) => true,
                    } == false);
                }
            },
            Check::Id(id) => {
                let tail = walk_ids(rest);
                let all = seq![id] + tail;
                assert(walk_ids(checks) == all);
                lemma_run_checks_ok(seen.push(id), rest);
                // depth_capped(checks) <==> depth_capped(rest)
                if depth_capped(checks) {
                    assert forall|i: int| 0 <= i < rest.len() implies match #[trigger] rest[i] {
                        Check::Depth(d) => d < MAX_DEPTH,
                        Check::Id(_) => true,
                    } by {
                        assert(rest[i] == checks[i + 1]);
                    }
                }
                if depth_capped(rest) {
                    assert forall|i: int| 0 <= i < checks.len() implies match #[trigger] checks[i] {
                        Check::Depth(d) => d < MAX_DEPTH,
                        Check::Id(_) => true,
                    } by {
                        if i > 0 {
                            assert(checks[i] == rest[i - 1]);
                        }
                    }
                }
                // fresh_ids(seen, all) <==> !seen.contains(id) && fresh_ids(seen.push(id), tail)
                if fresh_ids(seen, all) {
                    assert(all[0] == id);
                    assert forall|i: int| 0 <= i < tail.len() implies !seen.push(id).contains(
                        #[trigger] tail[i],
                    ) by {
                        assert(all[i + 1] == tail[i]);
                        if seen.push(id).contains(tail[i]) {
                            let j = choose|j: int|
                                0 <= j < seen.push(id).len() && seen.push(id)[j] == tail[i];
                            if j < seen.len() {
                                assert(seen.contains(tail[i]));
                            } else {
                                assert(all[0] == all[i + 1]);
                            }
                        }
                    }
                    assert forall|a: int, b: int|
                        0 <= a < tail.len() && 0 <= b < tail.len() && a != b implies tail[a]
                        != tail[b] by {
                        assert(all[a + 1] == tail[a]);
                        assert(all[b + 1] == tail[b]);
                    }
                }
                if !seen.contains(id) && fresh_ids(seen.push(id), tail) {
                    assert forall|i: int| 0 <= i < all.len() implies !seen.contains(
                        #[trigger] all[i],
                    ) by {
                        if i > 0 {
                            assert(all[i] == tail[i - 1]);
                            if seen.contains(tail[i - 1]) {
                                let j = choose|j: int| 0 <= j < seen.len() && seen[j] == tail[i - 1];
                                assert(seen.push(id)[j] == tail[i - 1]);
                            }
                        }
                    }
                    assert forall|a: int, b: int|
                        0 <= a < all.len() && 0 <= b < all.len() && a != b implies all[a]
                        != all[b] by {
                        if a == 0 && b > 0 {
                            assert(all[b] == tail[b - 1]);
                            assert(seen.push(id)[seen.len() as int] == id);
                        } else if b == 0 && a > 0 {
                            assert(all[a] == tail[a - 1]);
                            assert(seen.push(id)[seen.len() as int] == id);
                        } else if a > 0 && b > 0 {
                            assert(all[a] == tail[a - 1]);
                            assert(all[b] == tail[b - 1]);
                        }
                    }
                }
                if seen.contains(id) {
                    assert(all[0] == id);
                }
                assert(seen.push(id) + tail =~= seen + all);
            },
        }
    }
}

/// The edge checks succeed exactly when every edge is resolved.
pub proof fn lemma_edges_outcome_ok(edges: Seq<Edge>, known: Seq<Seq<char>>)
    ensures
        edges_outcome(edges, known) is Ok <==> edges_resolved(edges, known),
    decreases edges.len(),
{
    if edges.len() > 0 {
        let rest = edges.drop_first();
        lemma_edges_outcome_ok(rest, known);
        if edges_resolved(edges, known) {
            assert forall|i: int| 0 <= i < rest.len() implies {
                &&& (#[trigger] rest[i]).from@ != rest[i].to@
                &&& known.contains(rest[i].from@)
                &&& known.contains(rest[i].to@)
            } by {
                assert(rest[i] == edges[i + 1]);
            }
            assert(edges[0] == edges[0]);
        }
        if edge_problem(edges[0], known) is None && edges_resolved(rest, known) {
            assert forall|i: int| 0 <= i < edges.len() implies {
                &&& (#[trigger] edges[i]).from@ != edges[i].to@
                &&& known.contains(edges[i].from@)
                &&& known.contains(edges[i].to@)
            } by {
                if i > 0 {
                    assert(edges[i] == rest[i - 1]);
                }
            }
        }
    }
}

/// Validation succeeds exactly on well-formed specifications: identifiers are
/// unique, edges join two different existing elements, container depth is
/// capped, illustrative diagrams are non-empty, and the controls of an
/// interactive diagram have unique identifiers around a valid base.
pub proof fn lemma_validation_accepts_exactly_well_formed(spec: DiagramSpec)
    ensures
        diagram_outcome(spec) is Ok <==> well_formed(spec),
    decreases spec,
{
    match spec {
        DiagramSpec::Flowchart(flow) => {
            let checks = node_checks(flow.nodes@);
            lemma_run_checks_ok(Seq::empty(), checks);
            assert forall|i: int| 0 <= i < checks.len() implies match #[trigger] checks[i] {
                Check::Depth(d) => d < MAX_DEPTH,
                Check::Id(_) => true,
            } by {}
            assert(Seq::<Seq<char>>::empty() + walk_ids(checks) =~= walk_ids(checks));
            lemma_edges_outcome_ok(flow.edges@, walk_ids(checks));
        },
        DiagramSpec::Structure(s) => {
            let checks = containers_checks(s.containers@, 0);
            lemma_run_checks_ok(Seq::empty(), checks);
            assert(Seq::<Seq<char>>::empty() + walk_ids(checks) =~= walk_ids(checks));
            lemma_edges_outcome_ok(s.edges@, walk_ids(checks));
        },
        DiagramSpec::Illustrative(ill) => {
            lemma_run_checks_ok(Seq::empty(), elements_checks(ill.elements@, 0));
        },
        DiagramSpec::Interactive(inter) => {
            lemma_validation_accepts_exactly_well_formed(*inter.base);
            let checks = control_checks(inter.controls@);
            lemma_run_checks_ok(Seq::empty(), checks);
            assert forall|i: int| 0 <= i < checks.len() implies match #[trigger] checks[i] {
                Check::Depth(d) => d < MAX_DEPTH,
                Check::Id(_) => true,
            } by {}
        },
    }
}

/// `x` occurs at two different places of `s`.
pub open spec fn twice(s: Seq<Seq<char>>, x: Seq<char>) -> bool {
    exists|i: int, j: int| 0 <= i < j < s.len() && s[i] == x && s[j] == x
}

/// Some check of the walk enters a container `MAX_DEPTH` or more deep.
pub open spec fn too_deep(checks: Seq<Check>) -> bool {
    exists|i: int| 0 <= i < checks.len() && (#[trigger] checks[i] matches Check::Depth(d) && d >= MAX_DEPTH)
}

/// Some edge starts or ends at `x`.
pub open spec fn edge_mentions(edges: Seq<Edge>, x: Seq<char>) -> bool {
    exists|i: int| 0 <= i < edges.len() && ((#[trigger] edges[i]).from@ == x || edges[i].to@ == x)
}

/// Some edge starts and ends at the same identifier, and `m` says so.
pub open spec fn self_edge_reported(edges: Seq<Edge>, m: Seq<char>) -> bool {
    exists|i: int|
        0 <= i < edges.len() && (#[trigger] edges[i]).from@ == edges[i].to@ && m
            == "Self-referencing edge: "@ + edges[i].from@
}

/// The failures the walk can report: a repeated identifier, or a container
/// nested too deep.
proof fn lemma_run_checks_err(seen: Seq<Seq<char>>, checks: Seq<Check>)
    ensures
        match run_checks(seen, checks) {
            Ok(_) => true,
            Err(ValidationFailure::DuplicateId(x)) => twice(seen + walk_ids(checks), x),
            Err(ValidationFailure::ContainerDepth(l)) => l == MAX_DEPTH && too_deep(checks),
            Err(_) => false,
        },
    decreases checks.len(),
{
    if checks.len() > 0 {
        let rest = checks.drop_first();
        match checks[0] {
            Check::Depth(d) => {
                if d < MAX_DEPTH {
                    lemma_run_checks_err(seen, rest);
                    assert(walk_ids(checks) == walk_ids(rest));
                    if too_deep(rest) {
                        let i = choose|i: int|
                            0 <= i < rest.len() && (#[trigger] rest[i] matches Check::Depth(d) && d
                                >= MAX_DEPTH);
                        assert(checks[i + 1] == rest[i]);
                    }
                } else {
                    assert(checks[0] matches Check::Depth(d) && d >= MAX_DEPTH);
                }
            },
            Check::Id(id) => {
                let all = seen + walk_ids(checks);
                assert(walk_ids(checks) == seq![id] + walk_ids(rest));
                if seen.contains(id) {
                    let j = choose|j: int| 0 <= j < seen.len() && seen[j] == id;
                    assert(all[j] == id);
                    assert(all[seen.len() as int] == id);
                } else {
                    lemma_run_checks_err(seen.push(id), rest);
                    assert(seen.push(id) + walk_ids(rest) =~= all);
                    if too_deep(rest) {
                        let i = choose|i: int|
                            0 <= i < rest.len() && (#[trigger] rest[i] matches Check::Depth(d) && d
                                >= MAX_DEPTH);
                        assert(checks[i + 1] == rest[i]);
                    }
                }
            },
        }
    }
}

/// The failures the edge checks can report: a self-referencing edge, or an
/// edge end that is not a known identifier.
proof fn lemma_edges_outcome_err(edges: Seq<Edge>, known: Seq<Seq<char>>)
    ensures
        match edges_outcome(edges, known) {
            Ok(_) => true,
            Err(ValidationFailure::InvalidEdge(m)) => self_edge_reported(edges, m),
            Err(ValidationFailure::MissingReference(x)) => edge_mentions(edges, x) && !known.contains(x),
            Err(_) => false,
        },
    decreases edges.len(),
{
    if edges.len() > 0 {
        let rest = edges.drop_first();
        lemma_edges_outcome_err(rest, known);
        match edges_outcome(rest, known) {
            Err(ValidationFailure::InvalidEdge(m)) => {
                if self_edge_reported(rest, m) {
                    let i = choose|i: int|
                        0 <= i < rest.len() && (#[trigger] rest[i]).from@ == rest[i].to@ && m
                            == "Self-referencing edge: "@ + rest[i].from@;
                    assert(edges[i + 1] == rest[i]);
                }
            },
            Err(ValidationFailure::MissingReference(x)) => {
                if edge_mentions(rest, x) {
                    let i = choose|i: int|
                        0 <= i < rest.len() && ((#[trigger] rest[i]).from@ == x || rest[i].to@ == x);
                    assert(edges[i + 1] == rest[i]);
                }
            },
            _ => {},
        }
        assert(edges[0] == edges[0]);
    }
}

/// Why a specification was refused: the failure validation reports is
/// explained by the specification.
///
/// * a duplicate identifier occurs twice among the identifiers the walk
///   meets (nodes; or containers and nested elements);
/// * a missing reference is an edge end that is no identifier of the diagram;
/// * an invalid edge starts and ends at the same identifier, named in the
///   message;
/// * a depth failure names `MAX_DEPTH`, and some container lies that deep;
/// * an empty diagram is an illustrative diagram without elements;
/// * a duplicate control identifier occurs twice among an interactive
///   diagram's controls, or the interactive diagram's failure is its base's.
pub open spec fn explains(spec: DiagramSpec, e: ValidationFailure) -> bool
    decreases spec,
{
    match spec {
        DiagramSpec::Flowchart(flow) => {
            let ids = walk_ids(node_checks(flow.nodes@));
            match e {
                ValidationFailure::DuplicateId(x) => twice(ids, x),
                ValidationFailure::MissingReference(x) => edge_mentions(flow.edges@, x)
                    && !ids.contains(x),
                ValidationFailure::InvalidEdge(m) => self_edge_reported(flow.edges@, m),
                _ => false,
            }
        },
        DiagramSpec::Structure(st) => {
            let checks = containers_checks(st.containers@, 0);
            let ids = walk_ids(checks);
            match e {
                ValidationFailure::DuplicateId(x) => twice(ids, x),
                ValidationFailure::ContainerDepth(l) => l == MAX_DEPTH && too_deep(checks),
                ValidationFailure::MissingReference(x) => edge_mentions(st.edges@, x) && !ids.contains(x),
                ValidationFailure::InvalidEdge(m) => self_edge_reported(st.edges@, m),
                _ => false,
            }
        },
        DiagramSpec::Illustrative(ill) => {
            let checks = elements_checks(ill.elements@, 0);
            match e {
                ValidationFailure::EmptyDiagram => ill.elements@.len() == 0,
                ValidationFailure::DuplicateId(x) => twice(walk_ids(checks), x),
                ValidationFailure::ContainerDepth(l) => l == MAX_DEPTH && too_deep(checks),
                _ => false,
            }
        },
        DiagramSpec::Interactive(inter) => explains(*inter.base, e) || (e matches ValidationFailure::DuplicateControlId(x)
            && twice(walk_ids(control_checks(inter.controls@)), x)),
    }
}

/// Every failure validation reports is explained by the specification.
pub proof fn lemma_validation_failures_explained(spec: DiagramSpec)
    ensures
        match diagram_outcome(spec) {
            Ok(()) => true,
            Err(e) => explains(spec, e),
        },
    decreases spec,
{
    let empty = Seq::<Seq<char>>::empty();
    match spec {
        DiagramSpec::Flowchart(flow) => {
            let checks = node_checks(flow.nodes@);
            lemma_run_checks_err(empty, checks);
            lemma_run_checks_ok(empty, checks);
            assert(empty + walk_ids(checks) =~= walk_ids(checks));
            assert(!too_deep(checks)) by {
                if too_deep(checks) {
                    let i = choose|i: int|
                        0 <= i < checks.len() && (#[trigger] checks[i] matches Check::Depth(d) && d
                            >= MAX_DEPTH);
                    assert(checks[i] == Check::Id(flow.nodes@[i].id@));
                }
            }
            if let Ok(known) = run_checks(empty, checks) {
                lemma_edges_outcome_err(flow.edges@, known);
            }
        },
        DiagramSpec::Structure(st) => {
            let checks = containers_checks(st.containers@, 0);
            lemma_run_checks_err(empty, checks);
            lemma_run_checks_ok(empty, checks);
            assert(empty + walk_ids(checks) =~= walk_ids(checks));
            if let Ok(known) = run_checks(empty, checks) {
                lemma_edges_outcome_err(st.edges@, known);
            }
        },
        DiagramSpec::Illustrative(ill) => {
            let checks = elements_checks(ill.elements@, 0);
            lemma_run_checks_err(empty, checks);
            assert(empty + walk_ids(checks) =~= walk_ids(checks));
        },
        DiagramSpec::Interactive(inter) => {
            lemma_validation_failures_explained(*inter.base);
            let checks = control_checks(inter.controls@);
            lemma_run_checks_err(empty, checks);
            assert(empty + walk_ids(checks) =~= walk_ids(checks));
            assert(!too_deep(checks)) by {
                if too_deep(checks) {
                    let i = choose|i: int|
                        0 <= i < checks.len() && (#[trigger] checks[i] matches Check::Depth(d) && d
                            >= MAX_DEPTH);
                    assert(checks[i] == Check::Id(control_id(inter.controls@[i])));
                }
            }
        },
    }
}

} // verus!
