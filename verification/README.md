# diagramma

Diagramma turns a declarative diagram specification (nodes, edges,
containers) into themed SVG with light and dark modes.

## Layout of this crate

- `src/` is the verified library, checked by Verus:
  - `model`: the specification types and `validate_spec`, whose result is
    stated exactly (unique identifiers, resolved edges, no self-references,
    nesting at most six deep, non-empty illustrative diagrams, unique control
    identifiers, reported as such), with the law that validation accepts exactly the
    well-formed specifications;
  - `layout::layering` and `layout::flowchart`: layer assignment (cycles are
    broken by reversing back-edges, then every node takes the length of the
    longest path that ends at it; within a layer nodes start in the order a
    breadth-first walk from the sources meets them), barycenter ordering of
    each layer (a stable sort), and the wrapping of a layer into rows of at most four, with
    laws on each;
  - `svg`: color ramps and stops, semantic roles per theme mode, CSS variable
    sheets, `<style>` blocks, class rules, XML escaping, and the markup of
    labels, node shapes, edges and containers at written-out coordinates.
- `app/` is ordinary Rust around the library: the serde and JSON-schema
  forms of the specification, the floating-point geometry of the layouts and
  of edge routing, and the renderers that compute coordinates and hand them,
  written out, to the library's markup functions.
- `tests/` exercises the library from outside.
