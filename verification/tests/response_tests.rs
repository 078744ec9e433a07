use mcscan::response::Description;
use mcscan::response::DescriptionNode;
use mcscan::response::ForgeData;
use mcscan::response::Mod;
use mcscan::response::Players;
use mcscan::response::Server;
use mcscan::response::Version;
use mcscan::scanner::finalize_status;
use mcscan::scanner::TaskOutcome;

fn base_server(name: &str) -> Server {
    Server {
        latency: None,
        version: Version { name: name.to_string(), protocol: 765 },
        favicon: None,
        players: Players { max: 20, online: 3, sample: Some(Vec::new()) },
        description_raw: None,
        description_formatted: None,
        prevents_reports: None,
        enforces_secure_chat: None,
        modded: None,
        forge_data: None,
    }
}

fn node() -> DescriptionNode {
    DescriptionNode {
        obfuscated: None,
        bold: None,
        strikethrough: None,
        underline: None,
        italic: None,
        color: None,
        text: None,
        extra: None,
    }
}

#[test]
fn classification_by_name() {
    assert_eq!(base_server("Paper 1.20.4").get_type(), "Paper");
    assert_eq!(base_server("Velocity 3.3.0").get_type(), "Velocity");
    assert_eq!(base_server("WATERFALL-1.19").get_type(), "Waterfall");
    assert_eq!(base_server("BungeeCord 1.20").get_type(), "Bungeecord");
    assert_eq!(base_server("Leaves 1.20").get_type(), "Leaves");
    assert_eq!(base_server("Folia 1.20").get_type(), "Folia");
    assert_eq!(base_server("Purpur 1.19").get_type(), "Purpur");
    assert_eq!(base_server("Pufferfish 1.18").get_type(), "Pufferfish");
    assert_eq!(base_server("Spigot 1.8.8").get_type(), "Spigot");
    assert_eq!(base_server("CraftBukkit 1.7").get_type(), "Bukkit");
    assert_eq!(base_server("1.20.4").get_type(), "Java");
}

#[test]
fn classification_priority() {
    // Forks embed their parent's name; the most specific check wins.
    assert_eq!(base_server("Paper on Spigot (Bukkit)").get_type(), "Paper");
    // Forge metadata overrides any name.
    let mut forge = base_server("Velocity 3.3.0");
    forge.forge_data = Some(ForgeData {
        mods: vec![Mod { id: "jei".to_string(), version: "12.0".to_string() }],
    });
    assert_eq!(forge.get_type(), "Lexforge");
    // A modded marker overrides everything, forge data included.
    let mut modded = forge;
    modded.modded = Some(true);
    assert_eq!(modded.get_type(), "Neoforge");
    let mut modded_false = base_server("Paper 1.20.4");
    modded_false.modded = Some(false);
    assert_eq!(modded_false.get_type(), "Neoforge");
}

#[test]
fn forge_mod_list_carries_over() {
    let mut server = base_server("1.18.2");
    server.forge_data = Some(ForgeData {
        mods: vec![Mod { id: "jei".to_string(), version: "12.0".to_string() }],
    });
    assert_eq!(server.get_type(), "Lexforge");
    let forge = server.forge_data.as_ref().unwrap();
    assert_eq!(forge.mods[0].id, "jei");
    assert_eq!(forge.mods[0].version, "12.0");
}

#[test]
fn motd_plain_and_nested() {
    let server = base_server("Paper");
    assert_eq!(server.build_formatted_description(&Description::Text("Hi".to_string())), "Hi");
    assert_eq!(server.build_formatted_description(&Description::Empty), "");
    let seq = Description::Sequence(vec![
        Description::Text("a".to_string()),
        Description::Empty,
        Description::Text("b".to_string()),
    ]);
    assert_eq!(server.build_formatted_description(&seq), "ab");
}

#[test]
fn motd_codes_before_text_before_extra() {
    // S6: the text comes after the format codes and before the extras,
    // wherever the fields stood in the serialized object.
    let server = base_server("Paper");
    let mut n = node();
    n.bold = Some(true);
    n.color = Some("red".to_string());
    n.text = Some("Hello".to_string());
    n.extra = Some(vec![Description::Text(" World".to_string())]);
    assert_eq!(
        server.build_formatted_description(&Description::Node(n)),
        "\u{a7}l\u{a7}cHello World"
    );
}

#[test]
fn motd_flag_order_and_colors() {
    let server = base_server("Paper");
    let mut n = node();
    n.obfuscated = Some(true);
    n.bold = Some(true);
    n.strikethrough = Some(true);
    n.underline = Some(true);
    n.italic = Some(true);
    n.color = Some("gold".to_string());
    n.text = Some("x".to_string());
    assert_eq!(
        server.build_formatted_description(&Description::Node(n)),
        "\u{a7}k\u{a7}l\u{a7}m\u{a7}n\u{a7}o\u{a7}6x"
    );
    let mut off = node();
    off.bold = Some(false);
    off.text = Some("y".to_string());
    assert_eq!(server.build_formatted_description(&Description::Node(off)), "y");
    let mut hex = node();
    hex.color = Some("#FF0000".to_string());
    hex.text = Some("z".to_string());
    assert_eq!(server.build_formatted_description(&Description::Node(hex)), "\u{a7}4z");
    let mut unknown = node();
    unknown.color = Some("chartreuse".to_string());
    assert_eq!(server.build_formatted_description(&Description::Node(unknown)), "\u{a7}r");
}

#[test]
fn opt_out_detection() {
    // S5: an aqua-colored extra carrying the marker text.
    let mut server = base_server("Paper");
    let mut marker = node();
    marker.color = Some("aqua".to_string());
    marker.text = Some("\u{a7}b\u{a7}d\u{a7}f\u{a7}d\u{a7}b".to_string());
    let mut root = node();
    root.text = Some("welcome".to_string());
    root.extra = Some(vec![Description::Node(marker)]);
    let description = Description::Node(root);
    let formatted = server.build_formatted_description(&description);
    server.description_formatted = Some(formatted);
    assert!(server.check_opt_out());

    let mut clean = base_server("Paper");
    clean.description_formatted = Some("just a motd".to_string());
    assert!(!clean.check_opt_out());
    assert!(!base_server("Paper").check_opt_out());
}

#[test]
fn finalize_injects_latency_and_formats() {
    let mut server = base_server("Paper 1.20.4");
    server.description_raw = Some(Description::Text("Hi".to_string()));
    match finalize_status(server, 42) {
        TaskOutcome::Success(out) => {
            assert_eq!(out.latency, Some(42));
            assert_eq!(out.description_formatted.as_deref(), Some("Hi"));
            assert_eq!(out.get_type(), "Paper");
        },
        other => panic!("expected success, got {:?}", other),
    }
}

#[test]
fn finalize_filters_opted_out_servers() {
    let mut server = base_server("Paper");
    server.description_raw = Some(Description::Text(
        "hi \u{a7}b\u{a7}d\u{a7}f\u{a7}d\u{a7}b bye".to_string(),
    ));
    assert!(matches!(finalize_status(server, 1), TaskOutcome::OptOut));
}
