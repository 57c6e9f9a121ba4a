//! Shared filter-primitive attribute and bounds logic, and the per-chain
//! evaluation context with its named-output registry.

use vstd::prelude::*;

verus! {

use crate::attribute::{AttributeBag, parse_i32, parse_i32_spec};
use crate::flood::flood_render_v;
use crate::node::{slot_live, slot_node, NodeArena, NodeImpl, ParseError, Slot};
use crate::raster::{IRect, Raster, RasterV};
use crate::style::StyleValues;

/// The subregion attribute a parse failure refers to.
#[derive(Clone, Copy, PartialEq, Eq, Structural, Debug)]
pub enum SubregionAttr {
    X,
    Y,
    Width,
    Height,
}

/// The shared state of every filter primitive: an optional publish name and
/// an optional explicit subregion, each part independently overridable.
pub struct Primitive {
    pub result_name: Option<String>,
    pub x: Option<i32>,
    pub y: Option<i32>,
    pub width: Option<i32>,
    pub height: Option<i32>,
}

/// The mathematical content of a `Primitive`.
#[verifier::ext_equal]
pub ghost struct PrimitiveV {
    pub name: Option<Seq<char>>,
    pub x: Option<int>,
    pub y: Option<int>,
    pub width: Option<int>,
    pub height: Option<int>,
}

impl View for Primitive {
    type V = PrimitiveV;

    open spec fn view(&self) -> PrimitiveV {
        PrimitiveV {
            name: match self.result_name {
                Some(s) => Some(s@),
                None => None,
            },
            x: match self.x {
                Some(v) => Some(v as int),
                None => None,
            },
            y: match self.y {
                Some(v) => Some(v as int),
                None => None,
            },
            width: match self.width {
                Some(v) => Some(v as int),
                None => None,
            },
            height: match self.height {
                Some(v) => Some(v as int),
                None => None,
            },
        }
    }
}

/// A primitive with no publish name and no subregion.
pub open spec fn empty_primitive_v() -> PrimitiveV {
    PrimitiveV { name: None, x: None, y: None, width: None, height: None }
}

/// The effect of one attribute on a primitive's state: `result` sets the
/// publish name, `x`, `y`, `width` and `height` set the subregion parts,
/// anything else is left to other consumers; a malformed number is the
/// parse failure for that attribute.
pub open spec fn apply_attribute(p: PrimitiveV, name: Seq<char>, value: Seq<char>) -> Result<
    PrimitiveV,
    ParseError,
> {
    if name == "result"@ {
        Ok(PrimitiveV { name: Some(value), x: p.x, y: p.y, width: p.width, height: p.height })
    } else if name == "x"@ {
        match parse_i32_spec(value) {
            Some(v) => Ok(
                PrimitiveV {
                    name: p.name,
                    x: Some(v as int),
                    y: p.y,
                    width: p.width,
                    height: p.height,
                },
            ),
            None => Err(ParseError::InvalidNumber(SubregionAttr::X)),
        }
    } else if name == "y"@ {
        match parse_i32_spec(value) {
            Some(v) => Ok(
                PrimitiveV {
                    name: p.name,
                    x: p.x,
                    y: Some(v as int),
                    width: p.width,
                    height: p.height,
                },
            ),
            None => Err(ParseError::InvalidNumber(SubregionAttr::Y)),
        }
    } else if name == "width"@ {
        match parse_i32_spec(value) {
            Some(v) => Ok(
                PrimitiveV {
                    name: p.name,
                    x: p.x,
                    y: p.y,
                    width: Some(v as int),
                    height: p.height,
                },
            ),
            None => Err(ParseError::InvalidNumber(SubregionAttr::Width)),
        }
    } else if name == "height"@ {
        match parse_i32_spec(value) {
            Some(v) => Ok(
                PrimitiveV {
                    name: p.name,
                    x: p.x,
                    y: p.y,
                    width: p.width,
                    height: Some(v as int),
                },
            ),
            None => Err(ParseError::InvalidNumber(SubregionAttr::Height)),
        }
    } else {
        Ok(p)
    }
}

/// Applies the attributes of a bag to a primitive's state in document
/// order, stopping at the first malformed value.
pub open spec fn parse_attributes_v(p: PrimitiveV, entries: Seq<(Seq<char>, Seq<char>)>) -> Result<
    PrimitiveV,
    ParseError,
>
    decreases entries.len(),
{
    if entries.len() == 0 {
        Ok(p)
    } else {
        match apply_attribute(p, entries[0].0, entries[0].1) {
            Ok(p2) => parse_attributes_v(p2, entries.skip(1)),
            Err(e) => Err(e),
        }
    }
}

impl Primitive {
    /// A primitive with no publish name and no subregion.
    pub fn new() -> (r: Primitive)
        ensures
            r@ == empty_primitive_v(),
    {
        Primitive { result_name: None, x: None, y: None, width: None, height: None }
    }

    /// Reads the shared filter-primitive attributes from the bag, in
    /// document order; later entries override earlier ones. On a malformed
    /// value the walk stops: attributes before it are applied, the failure
    /// is returned.
    pub fn set_atts(&mut self, bag: &AttributeBag) -> (r: Result<(), ParseError>)
        ensures
            match parse_attributes_v(old(self)@, bag.entries_view()) {
                Ok(p) => r is Ok && final(self)@ == p,
                Err(e) => r == Err::<(), ParseError>(e),
            },
    {
        let result_lit: String = "result".to_owned();
        let x_lit: String = "x".to_owned();
        let y_lit: String = "y".to_owned();
        let width_lit: String = "width".to_owned();
        let height_lit: String = "height".to_owned();
        let ghost full = bag.entries_view();
        let ghost start = self@;
        let n = bag.entries.len();
        let mut i: usize = 0;
        proof {
            assert(full.skip(0) =~= full);
        }
        while i < n
            invariant
                n == bag.entries@.len(),
                full == bag.entries_view(),
                i <= n,
                start == old(self)@,
                parse_attributes_v(start, full) == parse_attributes_v(self@, full.skip(i as int)),
                result_lit@ == "result"@,
                x_lit@ == "x"@,
                y_lit@ == "y"@,
                width_lit@ == "width"@,
                height_lit@ == "height"@,
            decreases n - i,
        {
            proof {
                assert(full.skip(i as int).skip(1) =~= full.skip(i + 1));
                assert(full.skip(i as int)[0] == full[i as int]);
            }
            let name: &String = &bag.entries[i].0;
            let value: &String = &bag.entries[i].1;
            if name.eq(&result_lit) {
                self.result_name = Some(value.clone());
            } else if name.eq(&x_lit) {
                match parse_i32(value.as_str()) {
                    Some(v) => {
                        self.x = Some(v);
                    },
                    None => {
                        return Err(ParseError::InvalidNumber(SubregionAttr::X));
                    },
                }
            } else if name.eq(&y_lit) {
                match parse_i32(value.as_str()) {
                    Some(v) => {
                        self.y = Some(v);
                    },
                    None => {
                        return Err(ParseError::InvalidNumber(SubregionAttr::Y));
                    },
                }
            } else if name.eq(&width_lit) {
                match parse_i32(value.as_str()) {
                    Some(v) => {
                        self.width = Some(v);
                    },
                    None => {
                        return Err(ParseError::InvalidNumber(SubregionAttr::Width));
                    },
                }
            } else if name.eq(&height_lit) {
                match parse_i32(value.as_str()) {
                    Some(v) => {
                        self.height = Some(v);
                    },
                    None => {
                        return Err(ParseError::InvalidNumber(SubregionAttr::Height));
                    },
                }
            }
            i = i + 1;
        }
        proof {
            assert(full.skip(n as int) =~= Seq::<(Seq<char>, Seq<char>)>::empty());
        }
        Ok(())
    }

    /// The effective bounds of this primitive under the given context: the
    /// explicit subregion, each missing part defaulted from the active
    /// filter region, intersected with that region.
    pub fn get_bounds(&self, ctx: &FilterContext) -> (r: IRect)
        requires
            ctx.wf(),
        ensures
            r == effective_bounds(
                self@,
                ctx.region,
                ctx.source.width as int,
                ctx.source.height as int,
            ),
    {
        let base: IRect = match ctx.region {
            Some(r0) => r0,
            None => IRect {
                x0: 0,
                y0: 0,
                x1: ctx.source.width as i32,
                y1: ctx.source.height as i32,
            },
        };
        let x0: i64 = match self.x {
            Some(v) => v as i64,
            None => base.x0 as i64,
        };
        let y0: i64 = match self.y {
            Some(v) => v as i64,
            None => base.y0 as i64,
        };
        let w: i64 = match self.width {
            Some(v) => v as i64,
            None => (base.x1 as i64) - (base.x0 as i64),
        };
        let h: i64 = match self.height {
            Some(v) => v as i64,
            None => (base.y1 as i64) - (base.y0 as i64),
        };
        let mut rx0: i64 = base.x0 as i64;
        if x0 > rx0 {
            rx0 = x0;
        }
        let mut ry0: i64 = base.y0 as i64;
        if y0 > ry0 {
            ry0 = y0;
        }
        let mut rx1: i64 = base.x1 as i64;
        if x0 + w < rx1 {
            rx1 = x0 + w;
        }
        let mut ry1: i64 = base.y1 as i64;
        if y0 + h < ry1 {
            ry1 = y0 + h;
        }
        if rx1 < rx0 {
            rx1 = rx0;
        }
        if ry1 < ry0 {
            ry1 = ry0;
        }
        IRect { x0: rx0 as i32, y0: ry0 as i32, x1: rx1 as i32, y1: ry1 as i32 }
    }
}

/// The full extent of a source graphic of the given dimensions.
pub open spec fn full_region(sw: int, sh: int) -> IRect {
    IRect { x0: 0, y0: 0, x1: sw as i32, y1: sh as i32 }
}

/// The effective bounds of a primitive: its explicit subregion, with each
/// missing part defaulted from the active filter region (itself defaulting
/// to the source graphic's full extent), intersected with that region.
pub open spec fn effective_bounds(prim: PrimitiveV, region: Option<IRect>, sw: int, sh: int) -> IRect {
    let base = match region {
        Some(r) => r,
        None => full_region(sw, sh),
    };
    let x0 = match prim.x {
        Some(v) => v,
        None => base.x0 as int,
    };
    let y0 = match prim.y {
        Some(v) => v,
        None => base.y0 as int,
    };
    let w = match prim.width {
        Some(v) => v,
        None => base.x1 - base.x0,
    };
    let h = match prim.height {
        Some(v) => v,
        None => base.y1 - base.y0,
    };
    let rx0 = if x0 > base.x0 as int {
        x0
    } else {
        base.x0 as int
    };
    let ry0 = if y0 > base.y0 as int {
        y0
    } else {
        base.y0 as int
    };
    let rx1a = if x0 + w < base.x1 as int {
        x0 + w
    } else {
        base.x1 as int
    };
    let ry1a = if y0 + h < base.y1 as int {
        y0 + h
    } else {
        base.y1 as int
    };
    let rx1 = if rx1a < rx0 {
        rx0
    } else {
        rx1a
    };
    let ry1 = if ry1a < ry0 {
        ry0
    } else {
        ry1a
    };
    IRect { x0: rx0 as i32, y0: ry0 as i32, x1: rx1 as i32, y1: ry1 as i32 }
}

/// A failure during a primitive's render, aborting the rest of the chain.
#[derive(Clone, Copy, PartialEq, Eq, Structural, Debug)]
pub enum FilterError {
    /// The raster backend refused to allocate the output buffer.
    OutputSurfaceCreation,
}

/// A rendered buffer together with the rectangle it is valid within.
pub struct FilterOutput {
    pub surface: Raster,
    pub bounds: IRect,
}

/// The mathematical content of a `FilterOutput`.
#[verifier::ext_equal]
pub ghost struct FilterOutputV {
    pub surface: RasterV,
    pub bounds: IRect,
}

impl View for FilterOutput {
    type V = FilterOutputV;

    open spec fn view(&self) -> FilterOutputV {
        FilterOutputV { surface: self.surface@, bounds: self.bounds }
    }
}

/// A primitive's result: its optional publish name and its output.
pub struct FilterResult {
    pub name: Option<String>,
    pub output: FilterOutput,
}

/// The mathematical content of a `FilterResult`.
#[verifier::ext_equal]
pub ghost struct FilterResultV {
    pub name: Option<Seq<char>>,
    pub output: FilterOutputV,
}

impl View for FilterResult {
    type V = FilterResultV;

    open spec fn view(&self) -> FilterResultV {
        FilterResultV {
            name: match self.name {
                Some(s) => Some(s@),
                None => None,
            },
            output: self.output@,
        }
    }
}

/// The published entry for `name`, under last-write-wins: the most recently
/// stored output of that name, if any.
pub open spec fn lookup_v(entries: Seq<(Seq<char>, FilterOutputV)>, name: Seq<char>) -> Option<
    FilterOutputV,
>
    decreases entries.len(),
{
    if entries.len() == 0 {
        None
    } else if entries.last().0 == name {
        Some(entries.last().1)
    } else {
        lookup_v(entries.drop_last(), name)
    }
}

/// Per-evaluation environment of one filter chain: the read-only source
/// graphic, the named-output registry, and the active region bounds.
pub struct FilterContext {
    pub source: Raster,
    pub outputs: Vec<(String, FilterOutput)>,
    pub region: Option<IRect>,
}

/// The mathematical content of a `FilterContext`.
#[verifier::ext_equal]
pub ghost struct FilterContextV {
    pub source: RasterV,
    pub outputs: Seq<(Seq<char>, FilterOutputV)>,
    pub region: Option<IRect>,
}

impl View for FilterContext {
    type V = FilterContextV;

    open spec fn view(&self) -> FilterContextV {
        FilterContextV {
            source: self.source@,
            outputs: Seq::new(self.outputs@.len(), |i: int| (self.outputs@[i].0@, self.outputs@[i].1@)),
            region: self.region,
        }
    }
}

impl FilterContext {
    /// Shape invariant: the source and every published buffer are
    /// well-formed.
    pub open spec fn wf(self) -> bool {
        &&& self.source.wf()
        &&& forall|i: int| 0 <= i < self.outputs@.len() ==> (#[trigger] self.outputs@[i]).1.surface.wf()
    }

    /// Builds the environment for one chain evaluation, with an empty
    /// registry.
    pub fn new(source: Raster, region: Option<IRect>) -> (r: FilterContext)
        requires
            source.wf(),
        ensures
            r.wf(),
            r@.source == source@,
            r@.outputs == Seq::<(Seq<char>, FilterOutputV)>::empty(),
            r@.region == region,
            r.source == source,
            r.region == region,
    {
        let r = FilterContext { source, outputs: Vec::new(), region };
        proof {
            assert(r@.outputs =~= Seq::<(Seq<char>, FilterOutputV)>::empty());
        }
        r
    }

    /// The source graphic, read-only for the whole chain.
    pub fn source_graphic(&self) -> (r: &Raster)
        ensures
            r == self.source,
    {
        &self.source
    }

    /// Records a primitive's output under its publish name; a later store
    /// under the same name wins over an earlier one.
    pub fn store_output(&mut self, name: String, output: FilterOutput)
        requires
            old(self).wf(),
            output.surface.wf(),
        ensures
            final(self).wf(),
            final(self)@.outputs == old(self)@.outputs.push((name@, output@)),
            final(self)@.source == old(self)@.source,
            final(self)@.region == old(self)@.region,
            final(self).source == old(self).source,
            final(self).region == old(self).region,
    {
        self.outputs.push((name, output));
        proof {
            assert(final(self)@.outputs =~= old(self)@.outputs.push((name@, output@)));
        }
    }

    /// Looks up the most recently published output under `name`:
    /// case-sensitive, exact match, last write wins.
    pub fn lookup_output(&self, name: &String) -> (r: Option<&FilterOutput>)
        ensures
            match lookup_v(self@.outputs, name@) {
                None => r is None,
                Some(v) => r is Some && r->Some_0@ == v,
            },
    {
        let n = self.outputs.len();
        let mut i: usize = n;
        proof {
            assert(self@.outputs.take(n as int) =~= self@.outputs);
        }
        while i > 0
            invariant
                i <= n,
                n == self.outputs@.len(),
                lookup_v(self@.outputs, name@) == lookup_v(self@.outputs.take(i as int), name@),
            decreases i,
        {
            i = i - 1;
            proof {
                assert(self@.outputs.take(i + 1).drop_last() =~= self@.outputs.take(i as int));
                assert(self@.outputs.take(i + 1).last() == self@.outputs[i as int]);
            }
            if self.outputs[i].0.eq(name) {
                return Some(&self.outputs[i].1);
            }
        }
        proof {
            assert(self@.outputs.take(0) =~= Seq::<(Seq<char>, FilterOutputV)>::empty());
        }
        None
    }
}

/// The primitives of a chain, as the pairs of primitive state and cascaded
/// style behind the given handles.
pub open spec fn chain_prims(s: Seq<Option<Slot>>, handles: Seq<usize>) -> Seq<
    (PrimitiveV, StyleValues),
> {
    Seq::new(
        handles.len(),
        |i: int|
            (
                slot_node(s, handles[i] as int).imp->Flood_0.base@,
                slot_node(s, handles[i] as int).style,
            ),
    )
}

/// Evaluating a chain in document order over a registry: each primitive's
/// output is appended under its publish name (if any); the first failure
/// stops everything after it and becomes the chain's failure.
pub open spec fn chain_v(
    prims: Seq<(PrimitiveV, StyleValues)>,
    source: RasterV,
    region: Option<IRect>,
    outputs0: Seq<(Seq<char>, FilterOutputV)>,
) -> (Seq<(Seq<char>, FilterOutputV)>, Option<FilterError>)
    decreases prims.len(),
{
    if prims.len() == 0 {
        (outputs0, None::<FilterError>)
    } else {
        match flood_render_v(prims[0].0, prims[0].1, source, region) {
            Result::Err(e) => (outputs0, Some(e)),
            Result::Ok(res) => {
                let outputs1 = match res.name {
                    Option::Some(nm) => outputs0.push((nm, res.output)),
                    Option::None => outputs0,
                };
                chain_v(prims.skip(1), source, region, outputs1)
            },
        }
    }
}

/// Renders the primitives behind `handles` strictly in document order,
/// recording each named output in the context's registry. The first
/// failure abandons the rest of the chain and is returned; outputs
/// published before it stay in the registry.
pub fn evaluate_chain(arena: &NodeArena, handles: &Vec<usize>, ctx: &mut FilterContext) -> (r:
    Result<(), FilterError>)
    requires
        old(ctx).wf(),
        forall|i: int|
            0 <= i < handles@.len() ==> slot_live(arena.slots@, #[trigger] handles@[i] as int)
                && slot_node(arena.slots@, handles@[i] as int).imp is Flood,
    ensures
        final(ctx).wf(),
        final(ctx).source == old(ctx).source,
        final(ctx).region == old(ctx).region,
        ({
            let cr = chain_v(
                chain_prims(arena.slots@, handles@),
                old(ctx)@.source,
                old(ctx).region,
                old(ctx)@.outputs,
            );
            &&& final(ctx)@.outputs == cr.0
            &&& r == (match cr.1 {
                Some(e) => Err::<(), FilterError>(e),
                None => Ok::<(), FilterError>(()),
            })
        }),
{
    let ghost prims = chain_prims(arena.slots@, handles@);
    let ghost ctx0 = *ctx;
    let n = handles.len();
    let mut j: usize = 0;
    proof {
        assert(prims.skip(0) =~= prims);
    }
    while j < n
        invariant
            j <= n,
            n == handles@.len(),
            ctx.wf(),
            ctx.source == ctx0.source,
            ctx.region == ctx0.region,
            ctx0 == *old(ctx),
            prims == chain_prims(arena.slots@, handles@),
            forall|i: int|
                0 <= i < handles@.len() ==> slot_live(arena.slots@, #[trigger] handles@[i] as int)
                    && slot_node(arena.slots@, handles@[i] as int).imp is Flood,
            chain_v(prims, ctx0@.source, ctx0.region, ctx0@.outputs) == chain_v(
                prims.skip(j as int),
                ctx0@.source,
                ctx0.region,
                ctx@.outputs,
            ),
        decreases n - j,
    {
        proof {
            assert(prims.skip(j as int).skip(1) =~= prims.skip(j + 1));
            assert(prims.skip(j as int)[0] == prims[j as int]);
        }
        let h = handles[j];
        let res: Result<FilterResult, FilterError>;
        match &arena.slots[h] {
            Some(slot) => {
                match &slot.node.imp {
                    NodeImpl::Flood(f) => {
                        res = f.render(&slot.node.style, ctx);
                    },
                    NodeImpl::Foreign(_) => {
                        proof {
                            assert(false);
                        }
                        res = Err(FilterError::OutputSurfaceCreation);
                    },
                }
            },
            None => {
                proof {
                    assert(false);
                }
                res = Err(FilterError::OutputSurfaceCreation);
            },
        }
        match res {
            Ok(fres) => {
                let FilterResult { name: fname, output: foutput } = fres;
                match fname {
                    Some(nm) => {
                        ctx.store_output(nm, foutput);
                    },
                    None => {},
                }
            },
            Err(e) => {
                return Err(e);
            },
        }
        j = j + 1;
    }
    proof {
        assert(prims.skip(n as int) =~= Seq::<(PrimitiveV, StyleValues)>::empty());
    }
    Ok(())
}

/// Law: a published output is exactly what a later lookup of its name
/// observes, and publishing under one name changes no other name's entry.
pub proof fn lemma_publish_then_lookup(
    entries: Seq<(Seq<char>, FilterOutputV)>,
    name: Seq<char>,
    out: FilterOutputV,
    other: Seq<char>,
)
    requires
        other != name,
    ensures
        lookup_v(entries.push((name, out)), name) == Some(out),
        lookup_v(entries.push((name, out)), other) == lookup_v(entries, other),
{
    assert(entries.push((name, out)).drop_last() =~= entries);
}

/// Law: when a chain's first primitive fails, the chain's result is that
/// failure and the registry is left exactly as it was — no later primitive
/// is evaluated, whatever it would have produced.
pub proof fn lemma_chain_stops_at_failure(
    prims: Seq<(PrimitiveV, StyleValues)>,
    source: RasterV,
    region: Option<IRect>,
    outputs0: Seq<(Seq<char>, FilterOutputV)>,
)
    requires
        prims.len() > 0,
        flood_render_v(prims[0].0, prims[0].1, source, region) is Err,
    ensures
        chain_v(prims, source, region, outputs0) == (
            outputs0,
            Some(flood_render_v(prims[0].0, prims[0].1, source, region)->Err_0),
        ),
{
}

/// Law: in a two-primitive chain where the first publishes under a name the
/// second does not reuse, the whole chain succeeds and the registry holds
/// exactly the first primitive's published output under that name.
pub proof fn lemma_two_primitive_chain_observes_published(
    prims: Seq<(PrimitiveV, StyleValues)>,
    source: RasterV,
    region: Option<IRect>,
)
    requires
        prims.len() == 2,
        flood_render_v(prims[0].0, prims[0].1, source, region) is Ok,
        flood_render_v(prims[1].0, prims[1].1, source, region) is Ok,
        flood_render_v(prims[0].0, prims[0].1, source, region)->Ok_0.name is Some,
        flood_render_v(prims[1].0, prims[1].1, source, region)->Ok_0.name != flood_render_v(
            prims[0].0,
            prims[0].1,
            source,
            region,
        )->Ok_0.name,
    ensures
        ({
            let res0 = flood_render_v(prims[0].0, prims[0].1, source, region)->Ok_0;
            let cr = chain_v(prims, source, region, Seq::<(Seq<char>, FilterOutputV)>::empty());
            &&& cr.1 is None
            &&& lookup_v(cr.0, res0.name->Some_0) == Some(res0.output)
        }),
{
    let res0 = flood_render_v(prims[0].0, prims[0].1, source, region)->Ok_0;
    let res1 = flood_render_v(prims[1].0, prims[1].1, source, region)->Ok_0;
    let nm0 = res0.name->Some_0;
    let outputs0 = Seq::<(Seq<char>, FilterOutputV)>::empty();
    let outputs1 = outputs0.push((nm0, res0.output));
    assert(prims.skip(1)[0] == prims[1]);
    assert(prims.skip(1).skip(1) =~= Seq::<(PrimitiveV, StyleValues)>::empty());
    assert(outputs1.drop_last() =~= outputs0);
    assert(lookup_v(outputs1, nm0) == Some(res0.output));
    let outputs2 = match res1.name {
        Some(nm1) => outputs1.push((nm1, res1.output)),
        None => outputs1,
    };
    assert(chain_v(prims, source, region, outputs0) == chain_v(
        prims.skip(1),
        source,
        region,
        outputs1,
    ));
    assert(chain_v(prims.skip(1), source, region, outputs1) == chain_v(
        prims.skip(1).skip(1),
        source,
        region,
        outputs2,
    ));
    assert(chain_v(prims, source, region, outputs0) == (outputs2, None::<FilterError>));
    match res1.name {
        Some(nm1) => {
            lemma_publish_then_lookup(outputs1, nm1, res1.output, nm0);
        },
        None => {},
    }
}

} // verus!
