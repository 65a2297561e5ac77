use fx::md::content_to_html;
use fx::md::markdown_link;
use fx::md::truncate;
use fx::search::search_form;
use fx::serve::dev_salt;
use fx::serve::obtain_salt;
use fx::serve::SaltDecision;
use fx::serve::SaltError;
use fx::settings::text_input;
use fx::settings::InputType;

#[test]
fn dev_salt_is_the_fixed_text() {
    assert_eq!(&dev_salt(), b"nblVMlxYtvt0rxo3BML3zw");
}

#[test]
fn obtain_salt_outside_production_uses_the_dev_salt() {
    match obtain_salt(false, None).unwrap() {
        SaltDecision::Ready(salt) => assert_eq!(&salt, b"nblVMlxYtvt0rxo3BML3zw"),
        SaltDecision::GeneratePersist => panic!("expected the development salt"),
    }
    // The stored value is ignored outside production.
    let stored = vec![1u8; 22];
    match obtain_salt(false, Some(&stored)).unwrap() {
        SaltDecision::Ready(salt) => assert_eq!(&salt, b"nblVMlxYtvt0rxo3BML3zw"),
        SaltDecision::GeneratePersist => panic!("expected the development salt"),
    }
}

#[test]
fn obtain_salt_in_production_reuses_the_stored_salt() {
    let stored: Vec<u8> = b"AAAAAAAAAAAAAAAAAAAAAB".to_vec();
    match obtain_salt(true, Some(&stored)).unwrap() {
        SaltDecision::Ready(salt) => assert_eq!(salt.as_slice(), stored.as_slice()),
        SaltDecision::GeneratePersist => panic!("expected the stored salt"),
    }
}

#[test]
fn obtain_salt_in_production_asks_for_a_fresh_salt() {
    match obtain_salt(true, None).unwrap() {
        SaltDecision::GeneratePersist => {},
        SaltDecision::Ready(_) => panic!("expected a request to generate"),
    }
}

#[test]
fn obtain_salt_rejects_a_corrupt_stored_salt() {
    let short = vec![1u8; 21];
    assert_eq!(obtain_salt(true, Some(&short)).unwrap_err(), SaltError::CorruptStored);
    let long = vec![1u8; 23];
    assert_eq!(obtain_salt(true, Some(&long)).unwrap_err(), SaltError::CorruptStored);
}

#[test]
fn text_input_renders_each_control() {
    let text = text_input(InputType::Text, "site_name", "Site Name", "My Site", "The title.", true);
    assert!(text.contains("<label id='site_name_label' for='site_name'>Site Name</label>"));
    assert!(text.contains("type='text' value='My Site' required/>"));
    assert!(text.contains("The title."));

    let unchecked = text_input(InputType::Checkbox, "dark_mode", "Dark", "off", "d", false);
    assert!(unchecked.contains("type='checkbox'"));
    assert!(!unchecked.contains("checked"));
    let checked = text_input(InputType::Checkbox, "dark_mode", "Dark", "on", "d", false);
    assert!(checked.contains("checked"));

    let area = text_input(InputType::Textarea, "about", "About", "body text", "d", false);
    assert!(area.contains("<textarea id='about' name='about'"));
    assert!(area.contains(">body text</textarea>"));
}

#[test]
fn search_form_posts_to_search() {
    assert!(search_form().contains("action='/search'"));
}

#[test]
fn markdown_renders_html() {
    assert!(markdown_link().contains("markdownguide.org"));
    let html = content_to_html("# Title\n\nSome *text*.");
    assert!(html.contains("<h1>Title</h1>"));
    assert!(html.contains("<em>text</em>"));
    // GFM tables are enabled.
    let table = content_to_html("| a | b |\n| --- | --- |\n| c | d |\n");
    assert!(table.contains("<table>"));
    // Math stays a code block for the client-side renderer.
    let math = content_to_html("$$\nx = 1\n$$\n");
    assert!(math.contains("language-math"));
    // Raw HTML passes through.
    let raw = content_to_html("<div class='x'>kept</div>");
    assert!(raw.contains("<div class='x'>kept</div>"));
}

#[test]
fn truncate_cuts_at_character_boundaries() {
    assert_eq!(truncate("hello", 10), "hello");
    assert_eq!(truncate("hello world", 5), "hello");
    assert_eq!(truncate("hello world", 6), "hello");
    // A multi-byte character is never split.
    assert_eq!(truncate(" café", 4), "caf");
    assert_eq!(truncate(" café", 5), "caf");
    assert_eq!(truncate(" café", 6), "café");
    assert_eq!(truncate("  padded  ", 100), "padded");
}
