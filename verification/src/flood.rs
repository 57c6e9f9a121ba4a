//! The flood filter primitive: fills its effective bounds with the cascaded
//! flood colour at the cascaded flood opacity.

use vstd::prelude::*;

verus! {

use crate::attribute::AttributeBag;
use crate::filter::{
    effective_bounds, empty_primitive_v, parse_attributes_v, FilterContext, FilterError,
    FilterOutput, FilterOutputV, FilterResult, FilterResultV, Primitive, PrimitiveV,
};
use crate::node::ParseError;
use crate::raster::{
    lemma_cell_decompose, lemma_cell_index_bound, IRect, Pixel, Raster, RasterV, MAX_DIMENSION,
};
use crate::style::{resolve_flood_color, resolved_flood_color, ColorRgba, StyleValues};

/// The flood filter primitive.
pub struct Flood {
    pub base: Primitive,
}

/// One pixel of a flood output: the premultiplied flood paint inside the
/// bounds when the opacity is positive, fully transparent everywhere else.
pub open spec fn flood_output_pixel(
    bounds: IRect,
    color: ColorRgba,
    alpha: u8,
    x: int,
    y: int,
) -> Pixel {
    if alpha > 0 && bounds.contains(x, y) {
        Pixel::premultiplied(color.red, color.green, color.blue, alpha)
    } else {
        Pixel::transparent()
    }
}

/// The full pixel content of a flood output of dimensions `w` by `h`.
pub open spec fn flood_pixels(w: int, h: int, bounds: IRect, color: ColorRgba, alpha: u8) -> Seq<
    Pixel,
> {
    Seq::new((w * h) as nat, |k: int| flood_output_pixel(bounds, color, alpha, k % w, k / w))
}

/// What rendering a flood returns: a buffer of the source graphic's
/// dimensions holding `flood_pixels`, under the primitive's publish name
/// and effective bounds; or the allocation failure when the backend cannot
/// provide a buffer of those dimensions.
pub open spec fn flood_render_v(
    prim: PrimitiveV,
    style: StyleValues,
    source: RasterV,
    region: Option<IRect>,
) -> Result<FilterResultV, FilterError> {
    if source.width > MAX_DIMENSION || source.height > MAX_DIMENSION {
        Err(FilterError::OutputSurfaceCreation)
    } else {
        let bounds = effective_bounds(prim, region, source.width as int, source.height as int);
        Ok(
            FilterResultV {
                name: prim.name,
                output: FilterOutputV {
                    surface: RasterV {
                        width: source.width,
                        height: source.height,
                        pixels: flood_pixels(
                            source.width as int,
                            source.height as int,
                            bounds,
                            resolved_flood_color(style),
                            style.flood_opacity,
                        ),
                    },
                    bounds,
                },
            },
        )
    }
}

impl Flood {
    /// Constructs a new flood primitive with empty properties.
    pub fn new() -> (r: Flood)
        ensures
            r.base@ == empty_primitive_v(),
    {
        Flood { base: Primitive::new() }
    }

    /// Reads the shared filter-primitive attributes; a flood defines no
    /// attributes of its own, its paint comes from cascaded style.
    pub fn set_atts(&mut self, bag: &AttributeBag) -> (r: Result<(), ParseError>)
        ensures
            match parse_attributes_v(old(self).base@, bag.entries_view()) {
                Ok(p) => r is Ok && final(self).base@ == p,
                Err(e) => r == Err::<(), ParseError>(e),
            },
    {
        self.base.set_atts(bag)
    }

    /// Renders the flood: a buffer of the source graphic's dimensions,
    /// fully transparent outside the effective bounds and, when the
    /// cascaded flood opacity is positive, the premultiplied flood paint
    /// inside them.
    pub fn render(&self, style: &StyleValues, ctx: &FilterContext) -> (r: Result<
        FilterResult,
        FilterError,
    >)
        requires
            ctx.wf(),
        ensures
            ({
                let spec_r = flood_render_v(self.base@, *style, ctx.source@, ctx.region);
                &&& r is Ok <==> spec_r is Ok
                &&& r is Ok ==> r->Ok_0@ == spec_r->Ok_0 && r->Ok_0.output.surface.wf()
                &&& r is Err ==> r->Err_0 == spec_r->Err_0
            }),
    {
        let sw = ctx.source.width;
        let sh = ctx.source.height;
        let mut surface = match Raster::create(sw, sh) {
            Some(s) => s,
            None => {
                return Err(FilterError::OutputSurfaceCreation);
            },
        };
        let bounds = self.base.get_bounds(ctx);
        let color = resolve_flood_color(style);
        let alpha = style.flood_opacity;
        if alpha > 0 {
            let px = Pixel::premultiply(color.red, color.green, color.blue, alpha);
            surface.fill_rect(bounds, px);
        }
        proof {
            assert forall|k: int| 0 <= k < sw * sh implies surface.pixels@[k]
                == flood_output_pixel(
                bounds,
                color,
                alpha,
                k % (sw as int),
                k / (sw as int),
            ) by {
                lemma_cell_decompose(sw as int, sh as int, k);
                let x = k % (sw as int);
                let y = k / (sw as int);
                assert(surface.pixel_at(x, y) == surface.pixels@[k]);
            }
            assert(surface.pixels@ =~= flood_pixels(
                sw as int,
                sh as int,
                bounds,
                color,
                alpha,
            ));
            assert(surface@ =~= RasterV {
                width: sw as nat,
                height: sh as nat,
                pixels: flood_pixels(sw as int, sh as int, bounds, color, alpha),
            });
        }
        let name: Option<String> = match &self.base.result_name {
            Some(s) => Some(s.clone()),
            None => None,
        };
        let r = FilterResult { name, output: FilterOutput { surface, bounds } };
        proof {
            assert(r@ =~= flood_render_v(self.base@, *style, ctx.source@, ctx.region)->Ok_0);
        }
        Ok(r)
    }
}

/// Law: a flood with opacity zero yields a fully transparent output of the
/// source graphic's dimensions, whatever the colour, the bounds and the
/// rest of the style.
pub proof fn lemma_flood_zero_opacity(
    prim: PrimitiveV,
    style: StyleValues,
    source: RasterV,
    region: Option<IRect>,
)
    requires
        style.flood_opacity == 0,
        flood_render_v(prim, style, source, region) is Ok,
    ensures
        ({
            let out = flood_render_v(prim, style, source, region)->Ok_0.output.surface;
            &&& out.width == source.width
            &&& out.height == source.height
            &&& forall|x: int, y: int|
                0 <= x < out.width && 0 <= y < out.height ==> out.pixel_at(x, y)
                    == Pixel::transparent()
        }),
{
    let out = flood_render_v(prim, style, source, region)->Ok_0.output.surface;
    assert forall|x: int, y: int|
        0 <= x < out.width && 0 <= y < out.height implies out.pixel_at(x, y)
        == Pixel::transparent() by {
        lemma_cell_index_bound(out.width as int, out.height as int, x, y);
    }
}

} // verus!
