use ferris_lab::spritesheet::{Desc, Frame, FrameTag, Meta, Spritesheet};

fn tag(name: &str, from: u32, to: u32) -> FrameTag {
    FrameTag { name: name.to_string(), from, to, direction: "forward".to_string() }
}

fn desc(tags: Vec<FrameTag>, durations: &[u32]) -> Desc {
    Desc {
        frames: durations.iter().map(|d| Frame { duration: *d }).collect(),
        meta: Meta {
            app: "editor".to_string(),
            version: "1.2".to_string(),
            image: "ferris.png".to_string(),
            format: "RGBA8888".to_string(),
            scale: "1".to_string(),
            frame_tags: tags,
        },
    }
}

#[test]
fn sheet_from_description() {
    let d = desc(vec![tag("left", 0, 4), tag("right", 4, 8)], &[100, 100, 150, 100]);
    let s = Spritesheet::from_desc(&d);
    assert_eq!(s.image, "");
    assert_eq!(s.durations, vec![100, 100, 150, 100]);
    assert_eq!(s.ranges.len(), 2);
    assert_eq!(s.range(&"left".to_string()), Some((0, 4)));
    assert_eq!(s.range(&"right".to_string()), Some((4, 8)));
    assert_eq!(s.range(&"idle".to_string()), None);
}

#[test]
fn repeated_tag_name_keeps_later_range() {
    let d = desc(vec![tag("walk", 0, 2), tag("jump", 2, 3), tag("walk", 3, 6)], &[]);
    let s = Spritesheet::from_desc(&d);
    assert_eq!(s.ranges.len(), 2);
    assert_eq!(s.range(&"walk".to_string()), Some((3, 6)));
    assert_eq!(s.range(&"jump".to_string()), Some((2, 3)));
    assert!(s.durations.is_empty());
}
