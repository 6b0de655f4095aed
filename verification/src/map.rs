//! The map document: header enums, tilesets, layers, and the classifier
//! that walks a map's document-order children once, routing tilesets and the
//! single optional properties block to their fields while keeping every
//! layer kind in one order-preserving sequence — the map's paint order.

use vstd::prelude::*;

use crate::TmxError;
use crate::color::Color;
use crate::data::Data;
use crate::objects::Objectgroup;
use crate::properties::Properties;
use crate::text::str_eq;

verus! {

/// The map's global orientation.
#[derive(Debug, Clone, Copy, PartialEq, Eq, Structural)]
pub enum Orientation {
    Orthogonal,
    Isometric,
    Hexagonal,
    Staggered,
}

impl Orientation {
    /// Resolve the `orientation` attribute.
    pub fn from_tag(s: &str) -> (r: Result<Orientation, TmxError>)
        ensures
            ({
                if s@ == "orthogonal"@ {
                    r == Ok::<Orientation, TmxError>(Orientation::Orthogonal)
                } else if s@ == "isometric"@ {
                    r == Ok::<Orientation, TmxError>(Orientation::Isometric)
                } else if s@ == "hexagonal"@ {
                    r == Ok::<Orientation, TmxError>(Orientation::Hexagonal)
                } else if s@ == "staggered"@ {
                    r == Ok::<Orientation, TmxError>(Orientation::Staggered)
                } else {
                    r matches Err(e) && e matches TmxError::Schema(t) && t@ == s@
                }
            }),
    {
        if str_eq(s, "orthogonal") {
            Ok(Orientation::Orthogonal)
        } else if str_eq(s, "isometric") {
            Ok(Orientation::Isometric)
        } else if str_eq(s, "hexagonal") {
            Ok(Orientation::Hexagonal)
        } else if str_eq(s, "staggered") {
            Ok(Orientation::Staggered)
        } else {
            Err(TmxError::Schema(s.to_owned()))
        }
    }
}

/// Which axis of a staggered or hexagonal map is staggered.
#[derive(Debug, Clone, Copy, PartialEq, Eq, Structural)]
pub enum StaggerAxis {
    X,
    Y,
}

impl StaggerAxis {
    /// Resolve the `staggeraxis` attribute.
    pub fn from_tag(s: &str) -> (r: Result<StaggerAxis, TmxError>)
        ensures
            ({
                if s@ == "x"@ {
                    r == Ok::<StaggerAxis, TmxError>(StaggerAxis::X)
                } else if s@ == "y"@ {
                    r == Ok::<StaggerAxis, TmxError>(StaggerAxis::Y)
                } else {
                    r matches Err(e) && e matches TmxError::Schema(t) && t@ == s@
                }
            }),
    {
        if str_eq(s, "x") {
            Ok(StaggerAxis::X)
        } else if str_eq(s, "y") {
            Ok(StaggerAxis::Y)
        } else {
            Err(TmxError::Schema(s.to_owned()))
        }
    }
}

/// Whether even or odd rows or columns are shifted.
#[derive(Debug, Clone, Copy, PartialEq, Eq, Structural)]
pub enum StaggerIndex {
    Even,
    Odd,
}

impl StaggerIndex {
    /// Resolve the `staggerindex` attribute.
    pub fn from_tag(s: &str) -> (r: Result<StaggerIndex, TmxError>)
        ensures
            ({
                if s@ == "even"@ {
                    r == Ok::<StaggerIndex, TmxError>(StaggerIndex::Even)
                } else if s@ == "odd"@ {
                    r == Ok::<StaggerIndex, TmxError>(StaggerIndex::Odd)
                } else {
                    r matches Err(e) && e matches TmxError::Schema(t) && t@ == s@
                }
            }),
    {
        if str_eq(s, "even") {
            Ok(StaggerIndex::Even)
        } else if str_eq(s, "odd") {
            Ok(StaggerIndex::Odd)
        } else {
            Err(TmxError::Schema(s.to_owned()))
        }
    }
}

/// The order in which a layer's tiles are painted.
#[derive(Debug, Clone, Copy, PartialEq, Eq, Structural)]
pub enum TileRenderOrder {
    RightDown,
    RightUp,
    LeftDown,
    LeftUp,
}

impl TileRenderOrder {
    /// Resolve the `renderorder` attribute.
    pub fn from_tag(s: &str) -> (r: Result<TileRenderOrder, TmxError>)
        ensures
            ({
                if s@ == "right-down"@ {
                    r == Ok::<TileRenderOrder, TmxError>(TileRenderOrder::RightDown)
                } else if s@ == "right-up"@ {
                    r == Ok::<TileRenderOrder, TmxError>(TileRenderOrder::RightUp)
                } else if s@ == "left-down"@ {
                    r == Ok::<TileRenderOrder, TmxError>(TileRenderOrder::LeftDown)
                } else if s@ == "left-up"@ {
                    r == Ok::<TileRenderOrder, TmxError>(TileRenderOrder::LeftUp)
                } else {
                    r matches Err(e) && e matches TmxError::Schema(t) && t@ == s@
                }
            }),
    {
        if str_eq(s, "right-down") {
            Ok(TileRenderOrder::RightDown)
        } else if str_eq(s, "right-up") {
            Ok(TileRenderOrder::RightUp)
        } else if str_eq(s, "left-down") {
            Ok(TileRenderOrder::LeftDown)
        } else if str_eq(s, "left-up") {
            Ok(TileRenderOrder::LeftUp)
        } else {
            Err(TmxError::Schema(s.to_owned()))
        }
    }
}

/// An image reference with its pixel size and optional transparent color.
#[derive(Debug, Clone)]
pub struct Image {
    pub width: u32,
    pub height: u32,
    pub trans: Option<Color>,
    pub source: String,
}

/// One tile definition inside a tileset.
#[derive(Debug, Clone)]
pub struct Tile {
    pub id: u32,
    pub properties: Option<Properties>,
    pub image: Option<Image>,
}

/// A named collection of tile definitions with its starting GID offset.
#[derive(Debug, Clone)]
pub struct Tileset {
    pub firstgid: u32,
    pub name: String,
    pub tilewidth: u32,
    pub tileheight: u32,
    pub tilecount: u32,
    pub columns: u32,
    pub tiles: Vec<Tile>,
    pub image: Option<Image>,
}

/// One tile grid. Opacity holds the IEEE-754 single-precision bit pattern of
/// the document's value.
#[derive(Debug)]
pub struct Layer {
    pub name: String,
    pub width: u32,
    pub height: u32,
    pub opacity: Option<u32>,
    pub data: Data,
}

/// A layer that is a single image. Opacity and offsets hold IEEE-754
/// single-precision bit patterns.
#[derive(Debug, Clone)]
pub struct ImageLayer {
    pub name: String,
    pub opacity: Option<u32>,
    pub offsetx: Option<u32>,
    pub offsety: Option<u32>,
    pub visible: Option<u8>,
    pub image: Image,
    pub properties: Option<Properties>,
}

/// One entry of the map's unified, paint-ordered layer list.
#[derive(Debug)]
pub enum MapLayer {
    Layer(Layer),
    ObjectGroup(Objectgroup),
    ImageLayer(ImageLayer),
}

/// One document-order child of the map element, before classification.
#[derive(Debug)]
pub enum MapChild {
    Layer(Layer),
    ObjectGroup(Objectgroup),
    ImageLayer(ImageLayer),
    Properties(Option<Properties>),
    Tileset(Tileset),
}

// ---------------------------------------------------------------------------
// Classification.
// ---------------------------------------------------------------------------

/// The tilesets among the children, in their relative document order.
pub open spec fn tilesets_of(s: Seq<MapChild>) -> Seq<Tileset>
    decreases s.len(),
{
    if s.len() == 0 {
        Seq::empty()
    } else {
        match s[0] {
            MapChild::Tileset(t) => seq![t] + tilesets_of(s.drop_first()),
            _ => tilesets_of(s.drop_first()),
        }
    }
}

/// The layers among the children — tile grids, object groups and image
/// layers alike — in their exact relative document order.
pub open spec fn layers_of(s: Seq<MapChild>) -> Seq<MapLayer>
    decreases s.len(),
{
    if s.len() == 0 {
        Seq::empty()
    } else {
        match s[0] {
            MapChild::Layer(l) => seq![MapLayer::Layer(l)] + layers_of(s.drop_first()),
            MapChild::ObjectGroup(o) => seq![MapLayer::ObjectGroup(o)] + layers_of(
                s.drop_first(),
            ),
            MapChild::ImageLayer(il) => seq![MapLayer::ImageLayer(il)] + layers_of(
                s.drop_first(),
            ),
            _ => layers_of(s.drop_first()),
        }
    }
}

/// How many properties blocks stand among the children.
pub open spec fn props_count(s: Seq<MapChild>) -> int
    decreases s.len(),
{
    if s.len() == 0 {
        0
    } else {
        (match s[0] {
            MapChild::Properties(_) => 1int,
            _ => 0int,
        }) + props_count(s.drop_first())
    }
}

/// The payload of the first properties block, if any block stands among the
/// children.
pub open spec fn first_props(s: Seq<MapChild>) -> Option<Properties>
    decreases s.len(),
{
    if s.len() == 0 {
        Option::None
    } else {
        match s[0] {
            MapChild::Properties(p) => p,
            _ => first_props(s.drop_first()),
        }
    }
}

pub proof fn lemma_props_count_nonneg(s: Seq<MapChild>)
    ensures
        props_count(s) >= 0,
    decreases s.len(),
{
    if s.len() > 0 {
        lemma_props_count_nonneg(s.drop_first());
    }
}

/// Walk the children once, in document order: tilesets to their own list,
/// every layer kind to the unified paint-order list, and the at most one
/// properties block to the map; a second block is a hard error.
pub fn classify_children(children: Vec<MapChild>) -> (r: Result<
    (Vec<Tileset>, Vec<MapLayer>, Option<Properties>),
    TmxError,
>)
    ensures
        match r {
            Ok(t) => {
                &&& props_count(children@) <= 1
                &&& t.0@ == tilesets_of(children@)
                &&& t.1@ == layers_of(children@)
                &&& t.2 == first_props(children@)
            },
            Err(e) => e == TmxError::MultiplePropertiesBlocks && props_count(children@) >= 2,
        },
{
    let ghost all = children@;
    let mut rest = children;
    let mut tilesets: Vec<Tileset> = Vec::new();
    let mut layers: Vec<MapLayer> = Vec::new();
    let mut props: Option<Properties> = Option::None;
    let mut seen = false;
    proof {
        assert(rest@ =~= all.skip(0));
        assert(Seq::<Tileset>::empty() + tilesets_of(all) =~= tilesets_of(all));
        assert(Seq::<MapLayer>::empty() + layers_of(all) =~= layers_of(all));
    }
    let ghost mut i: int = 0;
    while rest.len() > 0
        invariant
            all == children@,
            0 <= i <= all.len(),
            rest@ == all.skip(i),
            tilesets_of(all) == tilesets@ + tilesets_of(all.skip(i)),
            layers_of(all) == layers@ + layers_of(all.skip(i)),
            props_count(all) == (if seen {
                1int
            } else {
                0int
            }) + props_count(all.skip(i)),
            seen ==> props == first_props(all),
            !seen ==> props is None && first_props(all) == first_props(all.skip(i)),
        decreases rest@.len(),
    {
        let c = rest.remove(0);
        let ghost u = all.skip(i);
        proof {
            assert(u[0] == all[i]);
            assert(u.drop_first() =~= all.skip(i + 1));
            assert(rest@ =~= all.skip(i + 1));
        }
        match c {
            MapChild::Tileset(t) => {
                let ghost pre = tilesets@;
                proof {
                    assert(tilesets_of(u) == seq![t] + tilesets_of(all.skip(i + 1)));
                    assert(pre + (seq![t] + tilesets_of(all.skip(i + 1))) =~= pre.push(t)
                        + tilesets_of(all.skip(i + 1)));
                }
                tilesets.push(t);
            },
            MapChild::Layer(l) => {
                let ghost pre = layers@;
                let ml = MapLayer::Layer(l);
                proof {
                    assert(layers_of(u) == seq![ml] + layers_of(all.skip(i + 1)));
                    assert(pre + (seq![ml] + layers_of(all.skip(i + 1))) =~= pre.push(ml)
                        + layers_of(all.skip(i + 1)));
                }
                layers.push(ml);
            },
            MapChild::ObjectGroup(o) => {
                let ghost pre = layers@;
                let ml = MapLayer::ObjectGroup(o);
                proof {
                    assert(layers_of(u) == seq![ml] + layers_of(all.skip(i + 1)));
                    assert(pre + (seq![ml] + layers_of(all.skip(i + 1))) =~= pre.push(ml)
                        + layers_of(all.skip(i + 1)));
                }
                layers.push(ml);
            },
            MapChild::ImageLayer(il) => {
                let ghost pre = layers@;
                let ml = MapLayer::ImageLayer(il);
                proof {
                    assert(layers_of(u) == seq![ml] + layers_of(all.skip(i + 1)));
                    assert(pre + (seq![ml] + layers_of(all.skip(i + 1))) =~= pre.push(ml)
                        + layers_of(all.skip(i + 1)));
                }
                layers.push(ml);
            },
            MapChild::Properties(p) => {
                if seen {
                    proof {
                        lemma_props_count_nonneg(all.skip(i + 1));
                        assert(props_count(u) >= 1);
                        assert(props_count(all) >= 2);
                    }
                    return Err(TmxError::MultiplePropertiesBlocks);
                }
                proof {
                    assert(first_props(u) == p);
                }
                seen = true;
                props = p;
            },
        }
        proof {
            i = i + 1;
        }
    }
    proof {
        assert(all.skip(i) =~= Seq::<MapChild>::empty());
        assert(tilesets@ + Seq::<Tileset>::empty() =~= tilesets@);
        assert(layers@ + Seq::<MapLayer>::empty() =~= layers@);
        lemma_props_count_nonneg(all.skip(i));
        if !seen {
            assert(first_props(all) == first_props(all.skip(i)));
        }
    }
    Ok((tilesets, layers, props))
}

// ---------------------------------------------------------------------------
// The assembled map.
// ---------------------------------------------------------------------------

/// The scalar header fields of a map element, as the document states them.
#[derive(Debug)]
pub struct MapHeader {
    pub version: String,
    pub orientation: Orientation,
    pub renderorder: TileRenderOrder,
    pub hexsidelength: Option<i32>,
    pub staggeraxis: Option<StaggerAxis>,
    pub staggerindex: Option<StaggerIndex>,
    pub width: u32,
    pub height: u32,
    pub tilewidth: u32,
    pub tileheight: u32,
    pub nextobjectid: u32,
    pub backgroundcolor: Option<Color>,
}

/// The assembled map document: the header, and the three collections the
/// classifier derives from the document-order children.
#[derive(Debug)]
pub struct TileMap {
    pub version: String,
    pub orientation: Orientation,
    pub renderorder: TileRenderOrder,
    pub hexsidelength: Option<i32>,
    pub staggeraxis: Option<StaggerAxis>,
    pub staggerindex: Option<StaggerIndex>,
    pub width: u32,
    pub height: u32,
    pub tilewidth: u32,
    pub tileheight: u32,
    pub nextobjectid: u32,
    pub backgroundcolor: Option<Color>,
    pub properties: Option<Properties>,
    pub tilesets: Vec<Tileset>,
    pub layers: Vec<MapLayer>,
}

impl TileMap {
    /// Assemble a map from its header and its document-order children.
    pub fn assemble(header: MapHeader, children: Vec<MapChild>) -> (r: Result<TileMap, TmxError>)
        ensures
            match r {
                Ok(m) => {
                    &&& m.version == header.version
                    &&& m.orientation == header.orientation
                    &&& m.renderorder == header.renderorder
                    &&& m.hexsidelength == header.hexsidelength
                    &&& m.staggeraxis == header.staggeraxis
                    &&& m.staggerindex == header.staggerindex
                    &&& m.width == header.width
                    &&& m.height == header.height
                    &&& m.tilewidth == header.tilewidth
                    &&& m.tileheight == header.tileheight
                    &&& m.nextobjectid == header.nextobjectid
                    &&& m.backgroundcolor == header.backgroundcolor
                    &&& props_count(children@) <= 1
                    &&& m.properties == first_props(children@)
                    &&& m.tilesets@ == tilesets_of(children@)
                    &&& m.layers@ == layers_of(children@)
                },
                Err(e) => e == TmxError::MultiplePropertiesBlocks && props_count(children@) >= 2,
            },
    {
        match classify_children(children) {
            Ok((tilesets, layers, properties)) => Ok(
                TileMap {
                    version: header.version,
                    orientation: header.orientation,
                    renderorder: header.renderorder,
                    hexsidelength: header.hexsidelength,
                    staggeraxis: header.staggeraxis,
                    staggerindex: header.staggerindex,
                    width: header.width,
                    height: header.height,
                    tilewidth: header.tilewidth,
                    tileheight: header.tileheight,
                    nextobjectid: header.nextobjectid,
                    backgroundcolor: header.backgroundcolor,
                    properties,
                    tilesets,
                    layers,
                },
            ),
            Err(e) => Err(e),
        }
    }
}

} // verus!
