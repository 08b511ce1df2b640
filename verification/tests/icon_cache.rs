use image::GenericImageView;
use protostar::cache::{get_image_cache_dir, CacheError, IconCache};
use protostar::icon::{Icon, IconType};

fn test_svg_bytes() -> Vec<u8> {
    let test_svg_data = "<svg xmlns=\"http://www.w3.org/2000/svg\" viewBox=\"0 0 100 100\">
	<ellipse cx=\"50\" cy=\"80\" rx=\"46\" ry=\"19\" fill=\"#07c\"/>
	<path d=\"M43,0c-6,25,16,22,1,52c11,3,19,0,19-22c38,18,16,63-12,64c-25,2-55-39-8-94\" fill=\"#e34\"/>
	<path d=\"M34,41c-6,39,29,32,33,7c39,42-69,63-33-7\" fill=\"#fc2\"/>
</svg>";
    test_svg_data.as_bytes().to_vec()
}

#[test]
fn test_render_svg_to_png() {
    let mut cache = IconCache::new("cache".to_string());
    let icon = Icon { icon_type: IconType::Svg, path: "test_input.svg".to_string(), size: 0 };
    let out = icon.cached_process(&mut cache, &test_svg_bytes(), 200).unwrap();

    assert!(out.rendered);
    assert_eq!(out.icon.icon_type, IconType::Png);
    assert!(out.icon.path.starts_with("cache/test_input-"));
    assert!(out.icon.path.ends_with(".png"));
    // stem + dash + 56 hex digits of the 28-byte digest + extension
    assert_eq!(out.icon.path.len(), "cache/test_input-".len() + 56 + ".png".len());

    let name = &out.icon.path["cache/".len()..];
    let png = cache.get(name).unwrap();
    let output_image = image::load_from_memory(png).unwrap();
    assert_eq!(output_image.dimensions(), (200, 200));
}

#[test]
fn test_materialize_is_idempotent() {
    let mut cache = IconCache::new("cache".to_string());
    let icon = Icon { icon_type: IconType::Svg, path: "test_input.svg".to_string(), size: 0 };
    let bytes = test_svg_bytes();

    let first = icon.cached_process(&mut cache, &bytes, 200).unwrap();
    assert!(first.rendered);
    assert_eq!(cache.len(), 1);
    let first_name = first.icon.path["cache/".len()..].to_string();
    let first_bytes = cache.get(&first_name).unwrap().clone();

    let second = icon.cached_process(&mut cache, &bytes, 200).unwrap();
    assert!(!second.rendered, "the second call must not re-invoke the rasterizer");
    assert_eq!(second.icon.path, first.icon.path);
    assert_eq!(cache.len(), 1);
    let second_bytes = cache.get(&first_name).unwrap();
    assert_eq!(&first_bytes, second_bytes);
}

#[test]
fn test_unrelated_key_adds_exactly_one_entry() {
    let mut cache = IconCache::new("cache".to_string());
    let icon = Icon { icon_type: IconType::Svg, path: "test_input.svg".to_string(), size: 0 };
    let bytes = test_svg_bytes();

    let first = icon.cached_process(&mut cache, &bytes, 200).unwrap();
    assert_eq!(cache.len(), 1);
    let first_name = first.icon.path["cache/".len()..].to_string();
    let first_bytes = cache.get(&first_name).unwrap().clone();

    // A different size makes an unrelated content key from the same bytes.
    let second = icon.cached_process(&mut cache, &bytes, 100).unwrap();
    assert!(second.rendered);
    assert_ne!(second.icon.path, first.icon.path);
    assert_eq!(cache.len(), 2);
    assert_eq!(cache.get(&first_name).unwrap(), &first_bytes);
}

#[test]
fn test_raster_and_model_pass_through() {
    let mut cache = IconCache::new("cache".to_string());
    let png = Icon { icon_type: IconType::Png, path: "/i/a.png".to_string(), size: 64 };
    let out = png.cached_process(&mut cache, &Vec::new(), 64).unwrap();
    assert!(!out.rendered);
    assert_eq!(out.icon.path, "/i/a.png".to_string());
    assert_eq!(cache.len(), 0);

    let glb = Icon { icon_type: IconType::Gltf, path: "/i/a.glb".to_string(), size: 0 };
    let out = glb.cached_process(&mut cache, &Vec::new(), 64).unwrap();
    assert!(!out.rendered);
    assert_eq!(out.icon.path, "/i/a.glb".to_string());
    assert_eq!(cache.len(), 0);
}

#[test]
fn test_unparsable_svg_is_invalid_data() {
    let mut cache = IconCache::new("cache".to_string());
    let icon = Icon { icon_type: IconType::Svg, path: "bad.svg".to_string(), size: 0 };
    let bytes = b"this is not an svg".to_vec();
    let err = icon.cached_process(&mut cache, &bytes, 64).unwrap_err();
    assert_eq!(err, CacheError::InvalidData);
    assert_eq!(cache.len(), 0);
}

#[test]
fn test_cache_dir_composition() {
    assert_eq!(
        get_image_cache_dir(&Some("/xdg/cache".to_string()), "/home/u"),
        "/xdg/cache/protostar_icon_cache".to_string()
    );
    assert_eq!(
        get_image_cache_dir(&None, "/home/u"),
        "/home/u/.cache/protostar_icon_cache".to_string()
    );
}
