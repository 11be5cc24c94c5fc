//! Options for quick-look PPI images of a sweep.

use vstd::prelude::*;
use crate::model::Product;

verus! {

/// The colour table that maps values to colours.
#[derive(Clone, Copy, Debug, PartialEq, Eq, Structural)]
pub enum ColorPalette {
    /// Chosen by the sweep's product.
    Auto,
    Reflectivity,
    Velocity,
}

/// The palette that `palette` means for a sweep of `product`.
pub open spec fn palette_for(palette: ColorPalette, product: Product) -> ColorPalette {
    match palette {
        ColorPalette::Auto => match product {
            Product::Velocity => ColorPalette::Velocity,
            _ => ColorPalette::Reflectivity,
        },
        other => other,
    }
}

impl ColorPalette {
    /// The palette this choice means for a sweep of `product`: `Auto` is the
    /// velocity table for velocity and the reflectivity table otherwise.
    pub fn resolve(self, product: &Product) -> (r: ColorPalette)
        ensures
            r == palette_for(self, *product),
            r != ColorPalette::Auto,
    {
        match self {
            ColorPalette::Auto => match product {
                Product::Velocity => ColorPalette::Velocity,
                _ => ColorPalette::Reflectivity,
            },
            other => other,
        }
    }
}

/// How to draw a sweep.
#[derive(Clone, Copy, Debug, PartialEq, Eq, Structural)]
pub struct RenderOptions {
    /// Width and height of the square image; drawn at least 64 pixels.
    pub size_px: u32,
    pub palette: ColorPalette,
    pub transparent_background: bool,
}

impl Default for RenderOptions {
    /// 1200 pixels, palette by product, opaque background.
    fn default() -> (r: Self)
        ensures
            r == (RenderOptions { size_px: 1200, palette: ColorPalette::Auto, transparent_background: false }),
    {
        RenderOptions { size_px: 1200, palette: ColorPalette::Auto, transparent_background: false }
    }
}

} // verus!
