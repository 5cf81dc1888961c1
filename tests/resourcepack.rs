use biomemap_tileserver::resource_identifier::{MinecraftResourceIdentifier, ParseError};

#[test]
fn parse_resource_identifiers() -> Result<(), ParseError> {
    assert_eq!(
        MinecraftResourceIdentifier::from_str("dirt")?.to_string(),
        "minecraft:dirt"
    );
    assert_eq!(
        MinecraftResourceIdentifier::from_str("fancy_mod31:coolblaster.notbullet")?.to_string(),
        "fancy_mod31:coolblaster.notbullet"
    );
    assert_eq!(
        MinecraftResourceIdentifier::from_str("notcool/mod:great_item").unwrap_err(),
        ParseError::InvalidCharactersInNamespace
    );
    assert_eq!(
        MinecraftResourceIdentifier::from_str("coolmod2:bad,VERYBAD.item").unwrap_err(),
        ParseError::InvalidCharactersInPath
    );
    assert_eq!(
        MinecraftResourceIdentifier::from_str("").unwrap_err(),
        ParseError::EmptyString
    );

    Ok(())
}

#[test]
fn too_many_colons_are_refused() {
    assert_eq!(
        MinecraftResourceIdentifier::from_str("a:b:c").unwrap_err(),
        ParseError::TooManyColons
    );
}

#[test]
fn path_error_wins_over_namespace_error() {
    assert_eq!(
        MinecraftResourceIdentifier::from_str("Bad/ns:Bad path").unwrap_err(),
        ParseError::InvalidCharactersInPath
    );
}

use biomemap_tileserver::blockstate::BlockState;
use biomemap_tileserver::model::{BlockTextures, Element, Face, Facing, Model};

#[test]
fn block_state_order_does_not_matter() {
    let mut a = BlockState::new();
    a.insert("flying", "true");
    a.insert("lines", "3");
    let mut b = BlockState::new();
    b.insert("lines", "3");
    b.insert("flying", "true");
    assert_eq!(a, b);
    assert_ne!(a, BlockState::default());
}

#[test]
fn identifier_paths() {
    let id = MinecraftResourceIdentifier::from_str("block/stone").unwrap();
    assert_eq!(
        id.clone().into_path().unwrap(),
        "assets/minecraft/models/block/stone.json"
    );
    assert_eq!(
        id.clone().into_prefixed_path("pack").unwrap(),
        "pack/assets/minecraft/models/block/stone.json"
    );
    assert_eq!(
        id.into_texture_path().unwrap(),
        "assets/minecraft/textures/block/stone.png"
    );
    let old = MinecraftResourceIdentifier::from_str("mod:block/old.tga").unwrap();
    assert_eq!(old.clone().into_texture_path().unwrap(), "assets/mod/textures/block/old.png");
    assert_eq!(old.into_path().unwrap(), "assets/mod/models/block/old.json");
    assert_eq!(MinecraftResourceIdentifier::from_str("item/stick").unwrap().into_path(), None);
    assert_eq!(
        MinecraftResourceIdentifier::from_str("block/stone")
            .unwrap()
            .into_prefixed_path("pack/")
            .unwrap(),
        "pack/assets/minecraft/models/block/stone.json"
    );
}

#[test]
fn paths_that_name_no_file_are_refused() {
    for text in ["a:/b", "a:b/", "minecraft:", "a:x/..", "a:x/."] {
        let id = MinecraftResourceIdentifier::from_str(text).unwrap();
        assert_eq!(id.into_texture_path(), None, "{text}");
    }
    for text in ["block/", "block/..", "block/./x"] {
        let id = MinecraftResourceIdentifier::from_str(text).unwrap();
        assert_eq!(id.into_path(), None, "{text}");
    }
    let dotted = MinecraftResourceIdentifier::from_str("a:x/.hidden").unwrap();
    assert_eq!(dotted.into_texture_path().unwrap(), "assets/a/textures/x/.hidden.png");
}

fn face(t: &str) -> Option<Face> {
    Some(Face { texture: t.to_string() })
}

fn faces(up: Option<Face>, north: Option<Face>) -> BlockTextures {
    BlockTextures { down: None, up, north, south: None, west: None, east: None }
}

#[test]
fn model_side_texture() {
    let model = Model {
        parent: None,
        textures: Some(vec![
            ("top".to_string(), "block/grass_top".to_string()),
            ("side".to_string(), "mod:block/side".to_string()),
        ]),
        elements: Some(vec![
            Element { faces: faces(face("#missing"), None) },
            Element { faces: faces(face("#top"), face("side")) },
        ]),
    };
    assert_eq!(
        model.get_side(Facing::Up).unwrap().unwrap().to_string(),
        "minecraft:block/grass_top"
    );
    assert_eq!(model.get_side(Facing::North).unwrap().unwrap().to_string(), "mod:block/side");
    assert_eq!(model.get_side(Facing::East).unwrap(), None);
    assert_eq!(faces(face("x"), None).get(Facing::Up).unwrap().texture, "x");
    assert!(faces(face("x"), None).get(Facing::Down).is_none());
    assert_eq!(Facing::West.name(), "west");
}

use biomemap_tileserver::blockstate::ParseError as StateError;

#[test]
fn block_state_from_text() {
    let mut expected = BlockState::new();
    expected.insert("axis", "y");
    expected.insert("lit", "true");
    assert_eq!(BlockState::from_str("lit=true,axis=y"), Ok(expected));
    assert_eq!(BlockState::from_str(""), Ok(BlockState::new()));
    assert_eq!(BlockState::from_str("a=1,b,c=3"), Err(StateError::TooManyEq(1)));
    assert_eq!(BlockState::from_str("x"), Err(StateError::TooManyEq(0)));
    let mut eq_in_value = BlockState::new();
    eq_in_value.insert("k", "v=w");
    assert_eq!(BlockState::from_str("k=v=w"), Ok(eq_in_value));
}

fn vars(pairs: &[(&str, &str)]) -> Option<Vec<(String, String)>> {
    Some(pairs.iter().map(|(k, v)| (k.to_string(), v.to_string())).collect())
}

#[test]
fn model_inherits_from_parent() {
    let child = Model {
        parent: Some(MinecraftResourceIdentifier::from_str("block/cube_all").unwrap()),
        textures: vars(&[("all", "block/dirt"), ("particle", "block/stone")]),
        elements: Some(vec![Element { faces: faces(face("#up"), None) }]),
    };
    let parent = Model {
        parent: Some(MinecraftResourceIdentifier::from_str("block/cube").unwrap()),
        textures: vars(&[("particle", "#all"), ("up", "#all"), ("down", "#nothing")]),
        elements: Some(vec![Element { faces: faces(None, face("#down")) }]),
    };
    let merged = child.inherit(parent);
    assert_eq!(merged.parent.unwrap().to_string(), "minecraft:block/cube");
    assert_eq!(
        merged.textures.unwrap(),
        vars(&[
            ("particle", "block/dirt"),
            ("up", "block/dirt"),
            ("down", "#nothing"),
            ("all", "block/dirt"),
        ])
        .unwrap()
    );
    let elements = merged.elements.unwrap();
    assert_eq!(elements.len(), 2);
    assert!(elements[0].faces.north.is_some());
    assert!(elements[1].faces.up.is_some());
}
