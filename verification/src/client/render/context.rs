//! How the window's surface is set up.

use vstd::prelude::*;

verus! {

/// What the surface's textures are used for.
#[derive(Copy, Clone, Debug, PartialEq, Eq, Structural)]
pub enum TextureUsage {
    RenderAttachment,
}

/// When a finished frame is shown.
#[derive(Copy, Clone, Debug, PartialEq, Eq, Structural)]
pub enum PresentMode {
    /// In order, with the next refresh of the display.
    Fifo,
}

/// How the surface blends with what lies behind it.
#[derive(Copy, Clone, Debug, PartialEq, Eq, Structural)]
pub enum AlphaMode {
    /// As the platform prefers.
    Auto,
}

/// How a surface is configured, over texture formats `F`.
#[derive(Debug)]
pub struct SurfaceConfiguration<F> {
    pub usage: TextureUsage,
    pub format: F,
    pub width: u32,
    pub height: u32,
    pub present_mode: PresentMode,
    pub desired_maximum_frame_latency: u32,
    pub alpha_mode: AlphaMode,
    pub view_formats: Vec<F>,
}

/// What is known of the surface.
#[derive(Debug)]
pub struct Context<F> {
    pub preferred_format: F,
}

/// Whether `context` is that of a surface that can have `formats`.
pub open spec fn chosen<F>(formats: Seq<F>, context: Context<F>) -> bool {
    context.preferred_format == formats[0]
}

/// Whether `config` is how `context` configures its surface for the given size.
pub open spec fn configured<F>(
    context: Context<F>,
    width: u32,
    height: u32,
    config: SurfaceConfiguration<F>,
) -> bool {
    &&& config.usage is RenderAttachment
    &&& config.format == context.preferred_format
    &&& config.width == width
    &&& config.height == height
    &&& config.present_mode is Fifo
    &&& config.desired_maximum_frame_latency == 2
    &&& config.alpha_mode is Auto
    &&& config.view_formats@ == seq![context.preferred_format]
}

impl<F: Copy> Context<F> {
    /// The context of a surface that can have `formats`, the best one first.
    pub fn new(formats: &Vec<F>) -> (context: Self)
        requires
            formats@.len() > 0,
        ensures
            chosen(formats@, context),
    {
        Context { preferred_format: formats[0] }
    }

    /// The configuration for a surface of the given size: the preferred format, for drawing and for
    /// views alike, and at most two frames ahead of the display.
    pub fn resize(&self, width: u32, height: u32) -> (config: SurfaceConfiguration<F>)
        ensures
            configured(*self, width, height, config),
    {
        let mut view_formats: Vec<F> = Vec::new();
        view_formats.push(self.preferred_format);
        SurfaceConfiguration {
            usage: TextureUsage::RenderAttachment,
            format: self.preferred_format,
            width,
            height,
            present_mode: PresentMode::Fifo,
            desired_maximum_frame_latency: 2,
            alpha_mode: AlphaMode::Auto,
            view_formats,
        }
    }
}

/// A surface is configured for the size of its window, whatever that is, and takes the format that
/// it likes best, the first of those that it can have.
pub proof fn law_surface_fits_the_window<F>(
    formats: Seq<F>,
    context: Context<F>,
    width: u32,
    height: u32,
    config: SurfaceConfiguration<F>,
)
    requires
        formats.len() > 0,
        chosen(formats, context),
        configured(context, width, height, config),
    ensures
        config.width == width,
        config.height == height,
        config.format == formats.first(),
        formats.contains(config.format),
{
    assert(formats.contains(formats[0]));
}

/// The size is all that a resize changes: two configurations of one surface differ in nothing else.
/// Each can be viewed in its own format and in no other, and is shown in order, at most two frames
/// late.
pub proof fn law_only_the_size_varies<F>(
    context: Context<F>,
    width: u32,
    height: u32,
    config: SurfaceConfiguration<F>,
    other_width: u32,
    other_height: u32,
    other: SurfaceConfiguration<F>,
)
    requires
        configured(context, width, height, config),
        configured(context, other_width, other_height, other),
    ensures
        other.usage == config.usage,
        other.format == config.format,
        other.present_mode == config.present_mode,
        other.desired_maximum_frame_latency == config.desired_maximum_frame_latency,
        other.alpha_mode == config.alpha_mode,
        other.view_formats@ == config.view_formats@,
        (other.width == config.width) == (other_width == width),
        (other.height == config.height) == (other_height == height),
        config.view_formats@.len() == 1,
        config.view_formats@[0] == config.format,
        config.desired_maximum_frame_latency == 2,
{
}

}
