use zeno::api::ContentBlock;
use zeno::api::Role;
use zeno::engine::messages::ConversationEntry;
use zeno::gateway::commands::CategoryInfo;
use zeno::images::attach_images;
use zeno::images::image_paths;
use zeno::images::known_media_type;
use zeno::skills::reload_registry;
use zeno::skills::SkillDefinition;
use zeno::skills::SkillRegistry;
use zeno::terminal::find_first_message;
use zeno::terminal::gate_frame;
use zeno::terminal::poll_millis;
use zeno::terminal::previous_session_notice;
use zeno::terminal::session_to_save;
use zeno::terminal::starting_model;

#[test]
fn pictures_are_found_in_a_text() {
    assert_eq!(image_paths("look at a/b.PNG and c.jpeg please"), ["a/b.PNG", "c.jpeg"]);
    assert!(image_paths("no pictures in notes.txt").is_empty());
    assert_eq!(image_paths("x.webp"), ["x.webp"]);
}

#[test]
fn pictures_are_attached() {
    let found = vec!["a.PNG".to_string(), "b.jpg".to_string()];
    let files = vec![Some(b"hi!".to_vec()), None];
    let (text, images) = attach_images("see a.PNG  and b.jpg", &found, &files);
    assert_eq!(text, "see and b.jpg");
    assert_eq!(images, [("image/png".to_string(), "aGkh".to_string())]);
    let (text, images) = attach_images("b.jpg", &vec!["b.jpg".to_string()], &vec![Some(vec![0u8])]);
    assert_eq!(text, "[Attached image(s)]");
    assert_eq!(images, [("image/jpeg".to_string(), "AA==".to_string())]);
}

#[test]
fn text_without_pictures_stays_as_it_is() {
    let (text, images) = attach_images("see  a.png", &vec!["a.png".to_string()], &vec![None]);
    assert_eq!(text, "see  a.png");
    assert!(images.is_empty());
}

#[test]
fn picture_that_is_too_large_is_left_out() {
    let found = vec!["a.png".to_string()];
    let limit = 10241 * 1024;
    let (_, images) = attach_images("a.png", &found, &vec![Some(vec![0u8; limit])]);
    assert!(images.is_empty());
    let (_, images) = attach_images("a.png", &found, &vec![Some(vec![0u8; limit - 1])]);
    assert_eq!(images.len(), 1);
}

#[test]
fn media_types_go_by_extension() {
    for (ext, kind) in [
        ("jpg", "image/jpeg"),
        ("jpeg", "image/jpeg"),
        ("gif", "image/gif"),
        ("webp", "image/webp"),
        ("bmp", "image/bmp"),
        ("png", "image/png"),
        ("tiff", "image/png"),
    ] {
        assert_eq!(known_media_type(ext), kind);
    }
    let kind = |path: &str| {
        let (_, images) = attach_images(path, &vec![path.to_string()], &vec![Some(Vec::new())]);
        images[0].0.clone()
    };
    assert_eq!(kind("dir/x.GIF"), "image/gif");
    assert_eq!(kind("dir.gif/x"), "image/png");
    // A name that only begins with a dot has no extension.
    assert_eq!(kind(".jpg"), "image/png");
}

fn skill(name: &str, source: &str) -> SkillDefinition {
    SkillDefinition {
        name: name.into(),
        description: String::new(),
        content: String::new(),
        source: source.into(),
        path: None,
        category: "c".into(),
    }
}

fn group(name: &str, skills: &[&str]) -> CategoryInfo {
    CategoryInfo {
        name: name.into(),
        description: format!("about {name}"),
        skill_names: skills.iter().map(|s| s.to_string()).collect(),
    }
}

#[test]
fn skills_are_loaded_anew() {
    let current = SkillRegistry {
        skills: vec![skill("b1", "bundled"), skill("u1", "user"), skill("b2", "hub")],
        categories: vec![group("both", &["b1", "u1"]), group("mine", &["u1"]), group("theirs", &["b2", "b2"])],
    };
    let fresh = SkillRegistry {
        skills: vec![skill("u2", "user")],
        categories: vec![group("both", &["u2"])],
    };
    let r = reload_registry(&current, fresh);
    let names: Vec<&str> = r.skills.iter().map(|s| s.name.as_str()).collect();
    assert_eq!(names, ["b1", "b2", "u2"]);
    assert_eq!(r.categories.len(), 2);
    assert_eq!(r.categories[0].skill_names, ["u2", "b1"]);
    assert_eq!(r.categories[1].name, "theirs");
    assert_eq!(r.categories[1].skill_names, ["b2"]);
    assert_eq!(r.categories[1].description, "about theirs");
}

fn entry(role: Role, content: Vec<ContentBlock>) -> ConversationEntry {
    ConversationEntry { role, content, reasoning_content: None }
}

fn says(text: &str) -> ContentBlock {
    ContentBlock::Text { text: text.into() }
}

#[test]
fn session_is_named_by_its_first_message() {
    let result = ContentBlock::ToolResult { tool_use_id: "t".into(), content: "r".into(), is_error: None };
    let entries = vec![
        entry(Role::Assistant, vec![says("welcome")]),
        entry(Role::User, vec![result, says("not this")]),
        entry(Role::User, vec![says("this")]),
    ];
    assert_eq!(find_first_message(&entries), "this");
    assert_eq!(find_first_message(&Vec::new()), "");
}

#[test]
fn session_is_saved_unless_it_is_empty() {
    let save = |entries: Vec<ConversationEntry>| {
        session_to_save("1".into(), "t".into(), "m".into(), "p".into(), "/".into(), entries, 5, "title".into(), None)
    };
    assert!(save(Vec::new()).is_none());
    let data = save(vec![entry(Role::User, vec![says("q")]), entry(Role::Assistant, vec![says(" a ")])]).unwrap();
    assert_eq!(data.final_response, "a");
    assert!(data.summary.starts_with("2 entries | 1 user messages"));
    let notice = previous_session_notice(&data);
    assert_eq!(notice.len(), 2);
    assert!(notice[1].starts_with("   Session from t — 2 entries"));
}

#[test]
fn screen_is_drawn_in_time() {
    let mut idle = 0;
    assert!(gate_frame(true, false, &mut idle));
    assert!(gate_frame(false, true, &mut idle));
    let mut skipped = 0;
    while !gate_frame(false, false, &mut idle) {
        skipped += 1;
    }
    assert_eq!(skipped, 100);
    assert_eq!(idle, 0);
    assert_eq!((poll_millis(true), poll_millis(false)), (16, 100));
}

#[test]
fn model_falls_back_to_the_default() {
    assert_eq!(starting_model("", "d"), "d");
    assert_eq!(starting_model("m", "d"), "m");
}
