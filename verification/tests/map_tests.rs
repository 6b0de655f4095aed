//! Child classification, map assembly, header-enum tags, colors, and
//! polygon points.

use tiled_loader::{
    classify_children, decode_properties, parse_points, Color, Data, DataCompression,
    DataEncoding, Layer, MapChild, MapHeader, MapLayer, Objectgroup, Orientation, Properties,
    StaggerAxis, StaggerIndex, TileMap, TileRenderOrder, Tileset, TmxError,
};

fn tile_layer(name: &str) -> Layer {
    Layer {
        name: name.to_string(),
        width: 2,
        height: 2,
        opacity: None,
        data: Data::empty(DataEncoding::CSV, DataCompression::Uncompressed),
    }
}

fn object_group(name: &str) -> Objectgroup {
    Objectgroup {
        name: name.to_string(),
        draworder: None,
        visible: None,
        opacity: None,
        offsetx: None,
        offsety: None,
        color: None,
        properties: None,
        objects: Vec::new(),
    }
}

fn tileset(name: &str) -> Tileset {
    Tileset {
        firstgid: 1,
        name: name.to_string(),
        tilewidth: 16,
        tileheight: 16,
        tilecount: 4,
        columns: 2,
        tiles: Vec::new(),
        image: None,
    }
}

fn some_props() -> Properties {
    decode_properties(&vec![tiled_loader::RawProperty {
        name: "speed".to_string(),
        type_: "int".to_string(),
        value: "3".to_string(),
    }])
    .unwrap()
}

fn layer_name(l: &MapLayer) -> &str {
    match l {
        MapLayer::Layer(l) => &l.name,
        MapLayer::ObjectGroup(o) => &o.name,
        MapLayer::ImageLayer(il) => &il.name,
    }
}

#[test]
fn classification_preserves_paint_order() {
    let children = vec![
        MapChild::Tileset(tileset("terrain")),
        MapChild::Layer(tile_layer("A")),
        MapChild::ObjectGroup(object_group("B")),
        MapChild::Layer(tile_layer("C")),
        MapChild::Properties(Some(some_props())),
    ];
    let (tilesets, layers, properties) = classify_children(children).unwrap();
    assert_eq!(tilesets.len(), 1);
    assert_eq!(tilesets[0].name, "terrain");
    let names: Vec<&str> = layers.iter().map(layer_name).collect();
    assert_eq!(names, vec!["A", "B", "C"]);
    let props = properties.unwrap();
    assert_eq!(
        props.get("speed"),
        Some(&tiled_loader::Property::Int(3))
    );
}

#[test]
fn two_properties_blocks_fail() {
    let children = vec![
        MapChild::Properties(Some(some_props())),
        MapChild::Layer(tile_layer("A")),
        MapChild::Properties(None),
    ];
    let err = classify_children(children).unwrap_err();
    assert_eq!(err, TmxError::MultiplePropertiesBlocks);
}

#[test]
fn even_an_empty_first_block_counts() {
    let children = vec![
        MapChild::Properties(None),
        MapChild::Properties(Some(some_props())),
    ];
    let err = classify_children(children).unwrap_err();
    assert_eq!(err, TmxError::MultiplePropertiesBlocks);
}

#[test]
fn classification_without_properties() {
    let children = vec![
        MapChild::Layer(tile_layer("only")),
        MapChild::Tileset(tileset("t1")),
        MapChild::Tileset(tileset("t2")),
    ];
    let (tilesets, layers, properties) = classify_children(children).unwrap();
    assert_eq!(tilesets.len(), 2);
    assert_eq!(tilesets[0].name, "t1");
    assert_eq!(tilesets[1].name, "t2");
    assert_eq!(layers.len(), 1);
    assert!(properties.is_none());
}

fn header() -> MapHeader {
    MapHeader {
        version: "1.0".to_string(),
        orientation: Orientation::Orthogonal,
        renderorder: TileRenderOrder::RightDown,
        hexsidelength: None,
        staggeraxis: None,
        staggerindex: None,
        width: 4,
        height: 3,
        tilewidth: 16,
        tileheight: 16,
        nextobjectid: 1,
        backgroundcolor: None,
    }
}

#[test]
fn map_assembly_carries_header_and_children() {
    let children = vec![
        MapChild::Tileset(tileset("terrain")),
        MapChild::Layer(tile_layer("ground")),
    ];
    let map: TileMap = TileMap::assemble(header(), children).unwrap();
    assert_eq!(map.version, "1.0");
    assert_eq!(map.orientation, Orientation::Orthogonal);
    assert_eq!(map.width, 4);
    assert_eq!(map.height, 3);
    assert_eq!(map.tilesets.len(), 1);
    assert_eq!(map.layers.len(), 1);
    assert!(map.properties.is_none());
}

#[test]
fn map_assembly_rejects_double_properties() {
    let children = vec![
        MapChild::Properties(None),
        MapChild::Properties(None),
    ];
    let err = TileMap::assemble(header(), children).unwrap_err();
    assert_eq!(err, TmxError::MultiplePropertiesBlocks);
}

#[test]
fn header_enum_tags_resolve() {
    assert_eq!(Orientation::from_tag("orthogonal").unwrap(), Orientation::Orthogonal);
    assert_eq!(Orientation::from_tag("isometric").unwrap(), Orientation::Isometric);
    assert_eq!(Orientation::from_tag("hexagonal").unwrap(), Orientation::Hexagonal);
    assert_eq!(Orientation::from_tag("staggered").unwrap(), Orientation::Staggered);
    assert_eq!(
        Orientation::from_tag("diagonal").unwrap_err(),
        TmxError::Schema("diagonal".to_string())
    );
    assert_eq!(StaggerAxis::from_tag("x").unwrap(), StaggerAxis::X);
    assert_eq!(StaggerAxis::from_tag("y").unwrap(), StaggerAxis::Y);
    assert!(StaggerAxis::from_tag("z").is_err());
    assert_eq!(StaggerIndex::from_tag("even").unwrap(), StaggerIndex::Even);
    assert_eq!(StaggerIndex::from_tag("odd").unwrap(), StaggerIndex::Odd);
    assert!(StaggerIndex::from_tag("prime").is_err());
    assert_eq!(
        TileRenderOrder::from_tag("right-down").unwrap(),
        TileRenderOrder::RightDown
    );
    assert_eq!(
        TileRenderOrder::from_tag("right-up").unwrap(),
        TileRenderOrder::RightUp
    );
    assert_eq!(
        TileRenderOrder::from_tag("left-down").unwrap(),
        TileRenderOrder::LeftDown
    );
    assert_eq!(
        TileRenderOrder::from_tag("left-up").unwrap(),
        TileRenderOrder::LeftUp
    );
    assert!(TileRenderOrder::from_tag("up-down").is_err());
}

#[test]
fn color_six_digits() {
    let c = Color::parse("#FF0000").unwrap();
    assert_eq!((c.r, c.g, c.b, c.a), (255, 0, 0, 255));
    let c = Color::parse("00ff7f").unwrap();
    assert_eq!((c.r, c.g, c.b, c.a), (0, 255, 127, 255));
}

#[test]
fn color_eight_digits_puts_alpha_first() {
    let c = Color::parse("80FF0000").unwrap();
    assert_eq!((c.r, c.g, c.b, c.a), (255, 0, 0, 128));
    let c = Color::parse("#01020304").unwrap();
    assert_eq!((c.r, c.g, c.b, c.a), (2, 3, 4, 1));
}

#[test]
fn malformed_colors_fail() {
    assert_eq!(Color::parse("").unwrap_err(), TmxError::MalformedColor);
    assert_eq!(Color::parse("#FF00").unwrap_err(), TmxError::MalformedColor);
    assert_eq!(Color::parse("GG0000").unwrap_err(), TmxError::MalformedColor);
    assert_eq!(Color::parse("#FF0000FF00").unwrap_err(), TmxError::MalformedColor);
}

#[test]
fn points_scan_pairs() {
    assert_eq!(parse_points("1,2 3,4").unwrap(), vec![(1, 2), (3, 4)]);
    assert_eq!(parse_points("-1,-2").unwrap(), vec![(-1, -2)]);
    assert_eq!(parse_points("").unwrap(), Vec::<(i32, i32)>::new());
    assert_eq!(parse_points("no pairs here").unwrap(), Vec::<(i32, i32)>::new());
}

#[test]
fn points_take_earliest_non_overlapping_matches() {
    // After "1,2" is consumed the lone "3" has no partner.
    assert_eq!(parse_points("1,2,3").unwrap(), vec![(1, 2)]);
    // A dangling minus is no coordinate.
    assert_eq!(parse_points("-,5 6,7").unwrap(), vec![(6, 7)]);
}

#[test]
fn points_out_of_range_fail() {
    assert_eq!(
        parse_points("9999999999,1").unwrap_err(),
        TmxError::MalformedPoints
    );
    assert_eq!(parse_points("2147483647,-2147483648").unwrap(), vec![(
        2147483647,
        -2147483648,
    )]);
}
