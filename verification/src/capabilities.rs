//! How much of each capability this build implements, and the operations that pipelines
//! and projects accept.
use crate::operation::{known_operation, OP_VERSION};
use vstd::prelude::*;

verus! {

#[derive(Debug, Clone, Copy, PartialEq, Eq, Structural)]
pub enum Support {
    Supported,
    Partial,
    NotImplemented,
}

#[derive(Debug)]
pub struct Capability {
    pub id: &'static str,
    pub status: Support,
    /// `current` is implemented here, `planned` belongs to later direct-edit tasks,
    /// and `roadmap` is outside the current direct-editing scope.
    pub scope: &'static str,
    pub details: &'static str,
}

/// The command-line commands this build answers, in the order they are documented.
pub fn commands() -> (r: Vec<&'static str>)
    ensures
        r@.map_values(|c: &str| c@) == seq!["help"@, "version"@, "capabilities"@, "info"@, "run"@, "identity"@, "crop"@, "resize"@, "rotate"@, "flip"@, "canvas"@, "adjust"@, "levels"@, "curves"@, "grayscale"@, "invert"@, "blur"@, "sharpen"@, "project create"@, "project apply"@, "project inspect"@, "project export"@, "project preview"@, "project undo"@, "project redo"@],
{
    let r: Vec<&'static str> = vec!["help", "version", "capabilities", "info", "run", "identity", "crop", "resize", "rotate", "flip", "canvas", "adjust", "levels", "curves", "grayscale", "invert", "blur", "sharpen", "project create", "project apply", "project inspect", "project export", "project preview", "project undo", "project redo"];
    assert(r@.map_values(|c: &str| c@) =~= seq!["help"@, "version"@, "capabilities"@, "info"@, "run"@, "identity"@, "crop"@, "resize"@, "rotate"@, "flip"@, "canvas"@, "adjust"@, "levels"@, "curves"@, "grayscale"@, "invert"@, "blur"@, "sharpen"@, "project create"@, "project apply"@, "project inspect"@, "project export"@, "project preview"@, "project undo"@, "project redo"@]);
    r
}

/// How much of each capability this build implements: its id, level and scope, in the order
/// they are documented. Every level occurs; `smart_editing` is roadmap only.
pub fn capability_list() -> (r: Vec<Capability>)
    ensures
        r@.map_values(|c: Capability| (c.id@, c.status, c.scope@)) == seq![("geometry"@, Support::Supported, "current"@), ("exif_orientation"@, Support::Supported, "current"@), ("info"@, Support::Supported, "current"@), ("identity"@, Support::Supported, "current"@), ("pipeline"@, Support::Partial, "current"@), ("png"@, Support::Partial, "current"@), ("jpeg"@, Support::Partial, "current"@), ("photo_editing"@, Support::Partial, "current"@), ("adjustments_filters"@, Support::Supported, "current"@), ("layer_compositing"@, Support::NotImplemented, "planned"@), ("project_history_preview"@, Support::Partial, "current"@), ("smart_editing"@, Support::NotImplemented, "roadmap"@), ("photoshop_compatibility"@, Support::NotImplemented, "roadmap"@)],
{
    let r: Vec<Capability> = vec![
        Capability { id: "geometry", status: Support::Supported, scope: "current", details: "Crop, resize (nearest/bilinear), clockwise rotation [-360,360] (nearest/bilinear, expanded or fixed canvas), horizontal/vertical flip and canvas padding/clipping with nine anchors. JSON parameters explicit; CLI defaults returned in steps.params." },
        Capability { id: "exif_orientation", status: Support::Supported, scope: "current", details: "JPEG EXIF and PNG eXIf primary orientation 1..8 normalized before operations/info; absent orientation is 1. Classic TIFF IFD0/Exif color declarations inspected. Malformed/duplicate EXIF rejected; non-sRGB/uncalibrated EXIF color rejected." },
        Capability { id: "info", status: Support::Supported, scope: "current", details: "Full decode of accepted PNG/JPEG; normalized and stored dimensions, original EXIF orientation and color assumption." },
        Capability { id: "identity", status: Support::Supported, scope: "current", details: "Preserves in-memory samples; final codec conversion still applies." },
        Capability { id: "pipeline", status: Support::Partial, scope: "current", details: "Schema v1, ordered identity, geometry, adjustment and filter operations, explicit parameters and logical steps; unknown operations rejected. One decode and final encode; no intermediate quantization or step fusion." },
        Capability { id: "png", status: Support::Partial, scope: "current", details: "Static 8-bit gray/RGB/RGBA, optional sRGB/EXIF. No palette, ICC, gamma/chromaticity, HDR or animation. RGBA8 output; deflate level 0..9 (default 6), adaptive row filtering." },
        Capability { id: "jpeg", status: Support::Partial, scope: "current", details: "8-bit gray/RGB/YCbCr without ICC, EXIF orientation normalized. No CMYK/YCCK/high bit depth. RGB output, quality 1..100 (default 90); transparency requires explicit opaque JPEG background." },
        Capability { id: "photo_editing", status: Support::Partial, scope: "current", details: "Geometry, exposure EV, brightness, contrast, saturation, levels, piecewise linear curves, grayscale, invert, Gaussian blur and unsharp mask supported in linear sRGB RGBA32F. No Photoshop parameter or pixel equivalence claim." },
        Capability { id: "adjustments_filters", status: Support::Supported, scope: "current", details: "Scalar v1 semantics; finite parameters only. RGB is not clipped between steps; non-finite f32 results fail. Color operations preserve alpha, blur filters premultiplied color/alpha with clamped edges, sharpen preserves original alpha. JSON requires every parameter; CLI defaults returned in steps.params." },
        Capability { id: "layer_compositing", status: Support::NotImplemented, scope: "planned", details: "Layers, masks, blend modes, groups, text and adjustment layers." },
        Capability { id: "project_history_preview", status: Support::Partial, scope: "current", details: "Self-contained .pic assets and immutable normalized ops; SHA-256 integrity/dedup, atomic manifest publication, cross-process writer lock and required expected_revision. Group undo/redo, any committed step inspect/export/full-resolution preview, continuation from old steps with retained read-only history. Full RGBA32F replay via the same pipeline. Checkpoints, scaled/region previews and templates remain planned. Linux validated." },
        Capability { id: "smart_editing", status: Support::NotImplemented, scope: "roadmap", details: "Future only: cutout, segmentation, smart repair, generative fill and outpaint. No LLM, model, or backend integration." },
        Capability { id: "photoshop_compatibility", status: Support::NotImplemented, scope: "roadmap", details: "No PSD round-trip or Photoshop parameter/pixel compatibility claim." },
    ];
    assert(r@.map_values(|c: Capability| (c.id@, c.status, c.scope@)) =~= seq![("geometry"@, Support::Supported, "current"@), ("exif_orientation"@, Support::Supported, "current"@), ("info"@, Support::Supported, "current"@), ("identity"@, Support::Supported, "current"@), ("pipeline"@, Support::Partial, "current"@), ("png"@, Support::Partial, "current"@), ("jpeg"@, Support::Partial, "current"@), ("photo_editing"@, Support::Partial, "current"@), ("adjustments_filters"@, Support::Supported, "current"@), ("layer_compositing"@, Support::NotImplemented, "planned"@), ("project_history_preview"@, Support::Partial, "current"@), ("smart_editing"@, Support::NotImplemented, "roadmap"@), ("photoshop_compatibility"@, Support::NotImplemented, "roadmap"@)]);
    r
}

/// One operation a pipeline step may name: its version, the targets it edits, its
/// parameters as a JSON schema (JSON text) and what it does.
#[derive(Debug)]
pub struct OperationCapability {
    pub op: &'static str,
    pub op_version: u32,
    pub targets: [&'static str; 1],
    pub params: &'static str,
    pub semantics: &'static str,
}

/// The operations a step may name, in the order they are documented: identity, the
/// geometry operations and the photo adjustments (the ones the pipeline dispatcher accepts,
/// each on the canvas), then the layer-document operations. Each is at the current version.
pub fn operation_capabilities() -> (r: Vec<OperationCapability>)
    ensures
        r@.map_values(|c: OperationCapability| c.op@) == seq!["identity"@, "crop"@, "resize"@, "rotate"@, "flip"@, "canvas"@, "adjust"@, "levels"@, "curves"@, "grayscale"@, "invert"@, "blur"@, "sharpen"@, "layer_add"@, "layer_set"@, "layer_transform"@, "layer_reorder"@, "layer_remove"@, "mask_set"@, "mask_remove"@, "selection_set"@, "selection_clear"@, "composite"@, "group_add"@, "layer_parent"@, "layer_clip"@, "text_add"@, "text_set"@, "adjustment_add"@, "adjustment_set"@],
        forall|i: int| 0 <= i < r@.len() ==> (#[trigger] r@[i]).op_version == OP_VERSION,
        forall|i: int| 0 <= i < 13 ==> known_operation((#[trigger] r@[i]).op@) && r@[i].targets[0]@ == "canvas"@,
{
    proof {
        reveal_strlit("identity");
    }
    assert("identity"@ =~= crate::operation::identity_text());
    let r = vec![
        OperationCapability {
            op: "identity",
            op_version: OP_VERSION,
            targets: ["canvas"],
            params: r#"{}"#,
            semantics: "Exact f32 samples and shared storage.",
        },
        OperationCapability {
            op: "crop",
            op_version: OP_VERSION,
            targets: ["canvas"],
            params: r#"{"type":"object","additionalProperties":false,"required":["x","y","width","height"],"properties":{"x":{"type":"integer","minimum":0,"maximum":4294967295},"y":{"type":"integer","minimum":0,"maximum":4294967295},"width":{"type":"integer","minimum":1,"maximum":4294967295},"height":{"type":"integer","minimum":1,"maximum":4294967295}}}"#,
            semantics: "Rectangle must lie entirely inside the current canvas; no implicit clipping or padding. Exact pixel copy.",
        },
        OperationCapability {
            op: "resize",
            op_version: OP_VERSION,
            targets: ["canvas"],
            params: r#"{"type":"object","additionalProperties":false,"required":["filter"],"properties":{"width":{"anyOf":[{"type":"integer","minimum":1,"maximum":4294967295},{"type":"null"}]},"height":{"anyOf":[{"type":"integer","minimum":1,"maximum":4294967295},{"type":"null"}]},"filter":{"enum":["nearest","bilinear"],"cli_default":"bilinear"}}}"#,
            semantics: "At least one dimension required. Both set exact dimensions; one infers aspect ratio, nearest integer (half up), minimum 1. Nearest copies center-mapped pixels. Bilinear filters premultiplied linear sRGB. Same-size resize is exact identity.",
        },
        OperationCapability {
            op: "rotate",
            op_version: OP_VERSION,
            targets: ["canvas"],
            params: r#"{"type":"object","additionalProperties":false,"required":["degrees","expand","filter","background"],"properties":{"degrees":{"type":"number","minimum":-360,"maximum":360},"expand":{"type":"boolean","cli_default":true},"filter":{"enum":["nearest","bilinear"],"cli_default":"bilinear"},"background":{"type":"array","items":{"type":"integer","minimum":0,"maximum":255},"minItems":4,"maxItems":4,"cli_default":[0,0,0,0]}}}"#,
            semantics: "Clockwise about canvas center. Exact quarter turns when expanded or square, exact 0/180 always. Other angles sample at inverse-mapped centers; outside taps use background.",
        },
        OperationCapability {
            op: "flip",
            op_version: OP_VERSION,
            targets: ["canvas"],
            params: r#"{"type":"object","additionalProperties":false,"required":["axis"],"properties":{"axis":{"enum":["horizontal","vertical"]}}}"#,
            semantics: "Horizontal reverses x; vertical reverses y. Dimensions and f32 samples preserved.",
        },
        OperationCapability {
            op: "canvas",
            op_version: OP_VERSION,
            targets: ["canvas"],
            params: r#"{"type":"object","additionalProperties":false,"required":["width","height","anchor","background"],"properties":{"width":{"type":"integer","minimum":1,"maximum":4294967295},"height":{"type":"integer","minimum":1,"maximum":4294967295},"anchor":{"enum":["top_left","top","top_right","left","center","right","bottom_left","bottom","bottom_right"],"cli_default":"center"},"background":{"type":"array","items":{"type":"integer","minimum":0,"maximum":255},"minItems":4,"maxItems":4,"cli_default":[0,0,0,0]}}}"#,
            semantics: "Padding/clipping without scaling. Start/center/end offsets are 0/floor((new-old)/2)/(new-old). Background only fills uncovered canvas.",
        },
        OperationCapability {
            op: "adjust",
            op_version: OP_VERSION,
            targets: ["canvas"],
            params: r#"{"type":"object","additionalProperties":false,"required":["exposure","brightness","contrast","saturation"],"properties":{"exposure":{"type":"number","minimum":-20,"maximum":20,"cli_default":0},"brightness":{"type":"number","minimum":-1,"maximum":1,"cli_default":0},"contrast":{"type":"number","minimum":0,"maximum":10,"cli_default":1},"saturation":{"type":"number","minimum":0,"maximum":10,"cli_default":1}}}"#,
            semantics: "All RGB, including hidden color, in linear sRGB: C*=2^exposure, C+=brightness, C=(C-0.5)*contrast+0.5, then C=Y+saturation*(C-Y), Y=0.2126R+0.7152G+0.0722B. Neutral controls skipped. Scalar f64 within this operation, f32 result, no clipping; alpha bits unchanged.",
        },
        OperationCapability {
            op: "levels",
            op_version: OP_VERSION,
            targets: ["canvas"],
            params: r#"{"type":"object","additionalProperties":false,"required":["channel","input_black","input_white","gamma","output_black","output_white"],"properties":{"channel":{"enum":["rgb","red","green","blue"],"cli_default":"rgb"},"input_black":{"type":"number","minimum":0,"maximum":1,"cli_default":0},"input_white":{"type":"number","minimum":0,"maximum":1,"cli_default":1},"gamma":{"type":"number","minimum":0.1,"maximum":10,"cli_default":1},"output_black":{"type":"number","minimum":0,"maximum":1,"cli_default":0},"output_white":{"type":"number","minimum":0,"maximum":1,"cli_default":1}}}"#,
            semantics: "Linear RGB selected channels, including hidden color. input_black<input_white, output_black<=output_white. t=(C-input_black)/(input_white-input_black); C'=output_black+(output_white-output_black)*sign(t)*abs(t)^(1/gamma). No clipping; other channels and alpha unchanged.",
        },
        OperationCapability {
            op: "curves",
            op_version: OP_VERSION,
            targets: ["canvas"],
            params: r#"{"type":"object","additionalProperties":false,"required":["channel","points"],"properties":{"channel":{"enum":["rgb","red","green","blue"],"cli_default":"rgb"},"points":{"type":"array","minItems":2,"maxItems":256,"items":{"type":"array","minItems":2,"maxItems":2,"items":{"type":"number","minimum":0,"maximum":1}},"cli_default":[[0,0],[1,1]]}}}"#,
            semantics: "Linear RGB selected channels, including hidden color. Points [x,y], strictly increasing x from 0 to 1. Piecewise linear interpolation, first/last segment extrapolation outside [0,1]. No clipping; other channels and alpha unchanged.",
        },
        OperationCapability {
            op: "grayscale",
            op_version: OP_VERSION,
            targets: ["canvas"],
            params: r#"{"type":"object","additionalProperties":false,"properties":{}}"#,
            semantics: "Linear RGB becomes Rec.709 Y=0.2126R+0.7152G+0.0722B. Hidden RGB is transformed; alpha bits unchanged. No clipping.",
        },
        OperationCapability {
            op: "invert",
            op_version: OP_VERSION,
            targets: ["canvas"],
            params: r#"{"type":"object","additionalProperties":false,"properties":{}}"#,
            semantics: "C'=1-C on all linear RGB including hidden color; no clipping. Alpha bits unchanged. This is not byte-wise sRGB inversion.",
        },
        OperationCapability {
            op: "blur",
            op_version: OP_VERSION,
            targets: ["canvas"],
            params: r#"{"type":"object","additionalProperties":false,"required":["sigma"],"properties":{"sigma":{"type":"number","minimum":0,"maximum":100,"cli_default":1}}}"#,
            semantics: "Gaussian standard deviation in pixels; 0 exact identity. Horizontal then vertical passes in premultiplied linear RGBA; outside taps clamp to the nearest edge. Dimensions unchanged.",
        },
        OperationCapability {
            op: "sharpen",
            op_version: OP_VERSION,
            targets: ["canvas"],
            params: r#"{"type":"object","additionalProperties":false,"required":["sigma","amount"],"properties":{"sigma":{"type":"number","minimum":0,"maximum":100,"cli_default":1},"amount":{"type":"number","minimum":0,"maximum":10,"cli_default":1}}}"#,
            semantics: "Unsharp mask: visible RGB C'=C+amount*(C-B) with B the blur of the same sigma. Overshoot retained; alpha preserved. sigma=0 or amount=0 exact identity.",
        },
        OperationCapability {
            op: "layer_add",
            op_version: OP_VERSION,
            targets: ["canvas"],
            params: r#"{"type":"object","additionalProperties":false,"required":["id","source","name"],"properties":{"id":{"type":"string","pattern":"^[A-Za-z0-9_-]{1,128}$","not":{"const":"canvas"}},"source":{"type":"string","minLength":1},"name":{"type":"string"}}}"#,
            semantics: "Adds a raster layer from a PNG/JPEG asset on top of the stack; the ID is stable and never reused after removal.",
        },
        OperationCapability {
            op: "layer_set",
            op_version: OP_VERSION,
            targets: ["layer"],
            params: r#"{"type":"object","additionalProperties":false,"properties":{"name":{"type":["string","null"]},"visible":{"type":["boolean","null"]},"opacity":{"type":["number","null"],"minimum":0,"maximum":1},"blend":{"enum":["normal","multiply","screen","overlay",null]}}}"#,
            semantics: "Changes the name, visibility, opacity or blend mode of one layer; absent fields are kept.",
        },
        OperationCapability {
            op: "layer_transform",
            op_version: OP_VERSION,
            targets: ["layer"],
            params: r#"{"type":"object","additionalProperties":false,"required":["x","y","scale_x","scale_y","degrees","flip_x","flip_y","filter"],"properties":{"x":{"type":"number"},"y":{"type":"number"},"scale_x":{"type":"number"},"scale_y":{"type":"number"},"degrees":{"type":"number"},"flip_x":{"type":"boolean"},"flip_y":{"type":"boolean"},"filter":{"enum":["nearest","bilinear"]}}}"#,
            semantics: "Replaces the layer's placement: translation, scale, clockwise rotation and flips about the layer center; local pixels are kept.",
        },
        OperationCapability {
            op: "layer_reorder",
            op_version: OP_VERSION,
            targets: ["layer"],
            params: r#"{"type":"object","additionalProperties":false,"required":["before"],"properties":{"before":{"type":["string","null"]}}}"#,
            semantics: "Moves the layer directly below the named sibling, or to the top when before is null.",
        },
        OperationCapability {
            op: "layer_remove",
            op_version: OP_VERSION,
            targets: ["layer"],
            params: r#"{"type":"object","additionalProperties":false,"properties":{}}"#,
            semantics: "Removes the layer; its ID is never reused.",
        },
        OperationCapability {
            op: "mask_set",
            op_version: OP_VERSION,
            targets: ["layer"],
            params: r#"{"type":"object","additionalProperties":false,"required":["source"],"properties":{"source":{"type":"string","minLength":1}}}"#,
            semantics: "Sets the layer mask from a grayscale coverage asset (R=G=B, times alpha) of the layer's size.",
        },
        OperationCapability {
            op: "mask_remove",
            op_version: OP_VERSION,
            targets: ["layer"],
            params: r#"{"type":"object","additionalProperties":false,"properties":{}}"#,
            semantics: "Removes the layer mask.",
        },
        OperationCapability {
            op: "selection_set",
            op_version: OP_VERSION,
            targets: ["canvas"],
            params: r#"{"type":"object","additionalProperties":false,"required":["space","regions"],"properties":{"space":{"type":"string"},"regions":{"type":"array","maxItems":1024}}}"#,
            semantics: "Sets the active selection as a union of regions in canvas or layer space.",
        },
        OperationCapability {
            op: "selection_clear",
            op_version: OP_VERSION,
            targets: ["canvas"],
            params: r#"{"type":"object","additionalProperties":false,"properties":{}}"#,
            semantics: "Clears the active selection.",
        },
        OperationCapability {
            op: "composite",
            op_version: OP_VERSION,
            targets: ["canvas"],
            params: r#"{"type":"object","additionalProperties":false,"required":["source","opacity","blend","transform"],"properties":{"source":{"type":"string","minLength":1},"mask":{"type":["string","null"]},"opacity":{"type":"number","minimum":0,"maximum":1},"blend":{"enum":["normal","multiply","screen","overlay"]},"transform":{"type":"object"}}}"#,
            semantics: "Composites an asset onto the canvas with opacity, blend mode, optional mask and transform.",
        },
        OperationCapability {
            op: "group_add",
            op_version: OP_VERSION,
            targets: ["canvas"],
            params: r#"{"type":"object","additionalProperties":false,"required":["id","name","width","height"],"properties":{"id":{"type":"string"},"name":{"type":"string"},"width":{"type":"integer","minimum":1},"height":{"type":"integer","minimum":1}}}"#,
            semantics: "Adds an isolated group layer of the given size on top of the stack.",
        },
        OperationCapability {
            op: "layer_parent",
            op_version: OP_VERSION,
            targets: ["layer"],
            params: r#"{"type":"object","additionalProperties":false,"required":["parent","before"],"properties":{"parent":{"type":["string","null"]},"before":{"type":["string","null"]}}}"#,
            semantics: "Moves the layer into a group (or back to the root), below the named sibling or on top; cycles are refused.",
        },
        OperationCapability {
            op: "layer_clip",
            op_version: OP_VERSION,
            targets: ["layer"],
            params: r#"{"type":"object","additionalProperties":false,"required":["base"],"properties":{"base":{"type":["string","null"]}}}"#,
            semantics: "Clips the layer to a lower sibling's alpha, or unclips it when base is null.",
        },
        OperationCapability {
            op: "text_add",
            op_version: OP_VERSION,
            targets: ["canvas"],
            params: r#"{"type":"object","additionalProperties":false,"required":["id","name","text"],"properties":{"id":{"type":"string"},"name":{"type":"string"},"text":{"type":"object"}}}"#,
            semantics: "Adds an editable text layer laid out in a fixed box with a font asset.",
        },
        OperationCapability {
            op: "text_set",
            op_version: OP_VERSION,
            targets: ["layer"],
            params: r#"{"type":"object","additionalProperties":false,"required":["font","text","size","line_height","width","height","align","color"],"properties":{"font":{"type":"string"},"text":{"type":"string"},"size":{"type":"number"},"line_height":{"type":"number"},"width":{"type":"integer","minimum":1},"height":{"type":"integer","minimum":1},"align":{"enum":["left","center","right"]},"color":{"type":"array","minItems":4,"maxItems":4}}}"#,
            semantics: "Replaces the text, font and layout of an editable text layer.",
        },
        OperationCapability {
            op: "adjustment_add",
            op_version: OP_VERSION,
            targets: ["canvas"],
            params: r#"{"type":"object","additionalProperties":false,"required":["id","name","width","height","adjustment"],"properties":{"id":{"type":"string"},"name":{"type":"string"},"width":{"type":"integer","minimum":1},"height":{"type":"integer","minimum":1},"adjustment":{"type":"object","required":["op","params"]}}}"#,
            semantics: "Adds an adjustment layer that applies a point operation to the layers below it in its scope.",
        },
        OperationCapability {
            op: "adjustment_set",
            op_version: OP_VERSION,
            targets: ["layer"],
            params: r#"{"type":"object","additionalProperties":false,"required":["op","params"],"properties":{"op":{"enum":["adjust","levels","curves","grayscale","invert"]},"params":{"type":"object"}}}"#,
            semantics: "Replaces the point operation of an adjustment layer.",
        },
    ];
    assert(r@.map_values(|c: OperationCapability| c.op@) =~= seq!["identity"@, "crop"@, "resize"@, "rotate"@, "flip"@, "canvas"@, "adjust"@, "levels"@, "curves"@, "grayscale"@, "invert"@, "blur"@, "sharpen"@, "layer_add"@, "layer_set"@, "layer_transform"@, "layer_reorder"@, "layer_remove"@, "mask_set"@, "mask_remove"@, "selection_set"@, "selection_clear"@, "composite"@, "group_add"@, "layer_parent"@, "layer_clip"@, "text_add"@, "text_set"@, "adjustment_add"@, "adjustment_set"@]);
    r
}

} // verus!
