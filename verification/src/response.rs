//! The typed status response: the record a server's status JSON decodes to,
//! classification of the server implementation, reconstruction of the
//! formatted MOTD from the recursive description tree, and the opt-out
//! marker check.

use crate::text::lower_chars;
use crate::text::seq_contains;
use crate::text::str_contains;
use crate::text::str_contains_lower;
use crate::utils::spec_color_from;
use crate::utils::spec_get_code;
use crate::utils::MinecraftColorCodes;
use vstd::prelude::*;
use vstd::string::*;

verus! {

/// The `version` object of a status response.
#[derive(Debug, Clone, PartialEq)]
pub struct Version {
    pub name: String,
    pub protocol: i32,
}

/// One entry of the player sample list.
#[derive(Debug, Clone, PartialEq)]
pub struct Player {
    pub id: String,
    pub name: String,
}

/// The `players` object of a status response.
#[derive(Debug, Clone, PartialEq)]
pub struct Players {
    pub max: i32,
    pub online: i32,
    pub sample: Option<Vec<Player>>,
}

/// One mod entry of a Forge mod list.
#[derive(Debug, Clone, PartialEq)]
pub struct Mod {
    pub id: String,
    pub version: String,
}

/// The Forge metadata object of a modded server's status response.
#[derive(Debug, Clone, PartialEq)]
pub struct ForgeData {
    pub mods: Vec<Mod>,
}

/// The `description` subtree of a status response: a bare string, an array
/// of parts, a formatting object, or any other JSON value, which contributes
/// nothing to the formatted text.
#[derive(Debug)]
pub enum Description {
    Text(String),
    Sequence(Vec<Description>),
    Node(DescriptionNode),
    Empty,
}

/// A formatting object: boolean format flags, an optional color, the text of
/// the node, and the child parts under `extra`.
#[derive(Debug)]
pub struct DescriptionNode {
    pub obfuscated: Option<bool>,
    pub bold: Option<bool>,
    pub strikethrough: Option<bool>,
    pub underline: Option<bool>,
    pub italic: Option<bool>,
    pub color: Option<String>,
    pub text: Option<String>,
    pub extra: Option<Vec<Description>>,
}

/// A parsed server status record.
#[derive(Debug)]
pub struct Server {
    pub latency: Option<i32>,
    pub version: Version,
    pub favicon: Option<String>,
    pub players: Players,
    pub description_raw: Option<Description>,
    pub description_formatted: Option<String>,
    pub prevents_reports: Option<bool>,
    pub enforces_secure_chat: Option<bool>,
    pub modded: Option<bool>,
    pub forge_data: Option<ForgeData>,
}

/// The code a true format flag contributes.
pub open spec fn flag_code(flag: Option<bool>, code: Seq<char>) -> Seq<char> {
    if flag == Some(true) {
        code
    } else {
        Seq::<char>::empty()
    }
}

/// The code a color entry contributes.
pub open spec fn color_code(color: Option<String>) -> Seq<char> {
    match color {
        Some(c) => seq!['§', spec_get_code(spec_color_from(c@))],
        None => Seq::<char>::empty(),
    }
}

/// All format codes of a node, in the fixed order obfuscated, bold,
/// strikethrough, underline, italic, then the color.
pub open spec fn node_codes(n: DescriptionNode) -> Seq<char> {
    flag_code(n.obfuscated, "§k"@) + flag_code(n.bold, "§l"@) + flag_code(n.strikethrough, "§m"@)
        + flag_code(n.underline, "§n"@) + flag_code(n.italic, "§o"@) + color_code(n.color)
}

/// The text a node's own `text` field contributes.
pub open spec fn node_text(n: DescriptionNode) -> Seq<char> {
    match n.text {
        Some(t) => t@,
        None => Seq::<char>::empty(),
    }
}

/// The formatted text of a description subtree: a string contributes its
/// characters, an array the concatenation of its parts, and an object its
/// format codes, then its own text, then its `extra` parts — in that order,
/// whatever order the fields stood in.
pub open spec fn format_description(d: Description) -> Seq<char>
    decreases d,
{
    match d {
        Description::Text(s) => s@,
        Description::Sequence(v) => format_items(v@),
        Description::Node(n) => node_codes(n) + node_text(n) + (match n.extra {
            Some(v) => format_items(v@),
            None => Seq::<char>::empty(),
        }),
        Description::Empty => Seq::<char>::empty(),
    }
}

/// The concatenated formatted text of a list of description parts.
pub open spec fn format_items(items: Seq<Description>) -> Seq<char>
    decreases items,
{
    if items.len() == 0 {
        Seq::<char>::empty()
    } else {
        format_description(items[0]) + format_items(items.drop_first())
    }
}

/// Appending a part to a list appends its formatted text.
proof fn lemma_format_items_snoc(items: Seq<Description>, d: Description)
    ensures
        format_items(items.push(d)) == format_items(items) + format_description(d),
    decreases items.len(),
{
    if items.len() == 0 {
        assert(items.push(d) =~= seq![d]);
        assert(seq![d].drop_first() =~= Seq::<Description>::empty());
        assert(format_items(Seq::<Description>::empty()) == Seq::<char>::empty());
        assert(format_items(items.push(d)) =~= format_description(d));
        assert(format_items(items) + format_description(d) =~= format_description(d));
    } else {
        lemma_format_items_snoc(items.drop_first(), d);
        assert(items.push(d).drop_first() =~= items.drop_first().push(d));
        assert(items.push(d)[0] == items[0]);
        assert(format_items(items.push(d)) =~= format_items(items) + format_description(d));
    }
}

/// The MOTD ordering law: the formatted text of an object is its format
/// codes, then its own `text`, then its `extra` parts. In particular the
/// result does not depend on where `text` stood among the serialized fields
/// of the object: the codes always come first and the text always precedes
/// the extras.
pub proof fn lemma_node_format_order(n: DescriptionNode)
    ensures
        format_description(Description::Node(n)) == node_codes(n) + node_text(n) + (match n.extra {
            Some(v) => format_items(v@),
            None => Seq::<char>::empty(),
        }),
{
}

/// The two-character legacy code of a palette color, `§` followed by the
/// color's code character.
fn color_literal(c: MinecraftColorCodes) -> (s: &'static str)
    ensures
        s@ == seq!['§', spec_get_code(c)],
{
    proof {
        reveal_strlit("§0");
        reveal_strlit("§1");
        reveal_strlit("§2");
        reveal_strlit("§3");
        reveal_strlit("§4");
        reveal_strlit("§5");
        reveal_strlit("§6");
        reveal_strlit("§7");
        reveal_strlit("§8");
        reveal_strlit("§9");
        reveal_strlit("§a");
        reveal_strlit("§b");
        reveal_strlit("§c");
        reveal_strlit("§d");
        reveal_strlit("§e");
        reveal_strlit("§f");
        reveal_strlit("§r");
    }
    match c {
        MinecraftColorCodes::Black => "§0",
        MinecraftColorCodes::DarkBlue => "§1",
        MinecraftColorCodes::DarkGreen => "§2",
        MinecraftColorCodes::DarkAqua => "§3",
        MinecraftColorCodes::DarkRed => "§4",
        MinecraftColorCodes::DarkPurple => "§5",
        MinecraftColorCodes::Gold => "§6",
        MinecraftColorCodes::Gray => "§7",
        MinecraftColorCodes::DarkGray => "§8",
        MinecraftColorCodes::Blue => "§9",
        MinecraftColorCodes::Green => "§a",
        MinecraftColorCodes::Aqua => "§b",
        MinecraftColorCodes::Red => "§c",
        MinecraftColorCodes::LightPurple => "§d",
        MinecraftColorCodes::Yellow => "§e",
        MinecraftColorCodes::White => "§f",
        MinecraftColorCodes::Reset => "§r",
        MinecraftColorCodes::UnknownValue => "§r",
    }
}

/// The name-based part of the classification: a case-insensitive substring
/// cascade over the version name, most specific fork first, since forks
/// embed their parent's name.
pub open spec fn name_based_type(name: Seq<char>) -> Seq<char> {
    let n = lower_chars(name);
    if seq_contains(n, "velocity"@) {
        "Velocity"@
    } else if seq_contains(n, "waterfall"@) {
        "Waterfall"@
    } else if seq_contains(n, "bungeecord"@) {
        "Bungeecord"@
    } else if seq_contains(n, "leaves"@) {
        "Leaves"@
    } else if seq_contains(n, "folia"@) {
        "Folia"@
    } else if seq_contains(n, "purpur"@) {
        "Purpur"@
    } else if seq_contains(n, "pufferfish"@) {
        "Pufferfish"@
    } else if seq_contains(n, "paper"@) {
        "Paper"@
    } else if seq_contains(n, "spigot"@) {
        "Spigot"@
    } else if seq_contains(n, "bukkit"@) {
        "Bukkit"@
    } else {
        "Java"@
    }
}

/// The classification of a status record: a modded marker first, then Forge
/// metadata, then the name-based cascade.
pub open spec fn spec_server_type(s: Server) -> Seq<char> {
    if s.modded is Some {
        "Neoforge"@
    } else if s.forge_data is Some {
        "Lexforge"@
    } else {
        name_based_type(s.version.name@)
    }
}

/// The classifier priority law: a `modded` marker classifies the server as
/// Neoforge whatever else the record holds, Forge metadata classifies it as
/// Lexforge whatever the version name says, and only a record with neither
/// falls through to the name cascade.
pub proof fn lemma_classifier_priority(s: Server, b: bool, f: ForgeData)
    ensures
        spec_server_type((Server { modded: Some(b), ..s })) == "Neoforge"@,
        spec_server_type((Server { modded: None, forge_data: Some(f), ..s })) == "Lexforge"@,
        s.modded is None && s.forge_data is None ==> spec_server_type(s) == name_based_type(
            s.version.name@,
        ),
{
}

impl Server {
    /// Classifies the server implementation. Modded markers take priority
    /// over everything, Forge metadata over the version name, and the name
    /// checks run from the most specific fork down.
    pub fn get_type(&self) -> (t: &'static str)
        ensures
            t@ == spec_server_type(*self),
    {
        if self.modded.is_some() {
            return "Neoforge";
        }
        if self.forge_data.is_some() {
            return "Lexforge";
        }
        let name: &str = self.version.name.as_str();
        if str_contains_lower(name, "velocity") {
            return "Velocity";
        }
        if str_contains_lower(name, "waterfall") {
            return "Waterfall";
        }
        if str_contains_lower(name, "bungeecord") {
            return "Bungeecord";
        }
        if str_contains_lower(name, "leaves") {
            return "Leaves";
        }
        if str_contains_lower(name, "folia") {
            return "Folia";
        }
        if str_contains_lower(name, "purpur") {
            return "Purpur";
        }
        if str_contains_lower(name, "pufferfish") {
            return "Pufferfish";
        }
        if str_contains_lower(name, "paper") {
            return "Paper";
        }
        if str_contains_lower(name, "spigot") {
            return "Spigot";
        }
        if str_contains_lower(name, "bukkit") {
            return "Bukkit";
        }
        "Java"
    }

    /// Whether the formatted description carries the opt-out marker with
    /// which an operator asks not to be indexed.
    pub fn check_opt_out(&self) -> (r: bool)
        ensures
            r == (match self.description_formatted {
                Some(d) => seq_contains(d@, "§b§d§f§d§b"@),
                None => false,
            }),
    {
        match &self.description_formatted {
            Some(description) => str_contains(description.as_str(), "§b§d§f§d§b"),
            None => false,
        }
    }

    /// Rebuilds the legacy-formatted text of a description subtree. For an
    /// object, format codes are emitted first, then the object's own text,
    /// then its `extra` parts, whatever order the fields arrived in.
    pub fn build_formatted_description(&self, value: &Description) -> (out: String)
        ensures
            out@ == format_description(*value),
        decreases *value,
    {
        match value {
            Description::Text(s) => s.clone(),
            Description::Sequence(v) => {
                let mut out = String::new();
                let mut i: usize = 0;
                while i < v.len()
                    invariant
                        i <= v@.len(),
                        *value == Description::Sequence(*v),
                        out@ == format_items(v@.take(i as int)),
                    decreases v@.len() - i,
                {
                    proof {
                        vstd::std_specs::vec::axiom_vec_decreases_to_view::<Description>(*v);
                        vstd::seq::axiom_seq_index_decreases::<Description>(v@, i as int);
                        assert(decreases_to!(*value => value->Sequence_0));
                        assert(decreases_to!(*value => v@[i as int]));
                    }
                    let part = self.build_formatted_description(&v[i]);
                    out.append(part.as_str());
                    proof {
                        assert(v@.take(i + 1) =~= v@.take(i as int).push(v@[i as int]));
                        lemma_format_items_snoc(v@.take(i as int), v@[i as int]);
                    }
                    i = i + 1;
                }
                proof {
                    assert(v@.take(v@.len() as int) =~= v@);
                }
                out
            },
            Description::Node(n) => {
                let mut out = String::new();
                if let Some(true) = n.obfuscated {
                    out.append("§k");
                }
                if let Some(true) = n.bold {
                    out.append("§l");
                }
                if let Some(true) = n.strikethrough {
                    out.append("§m");
                }
                if let Some(true) = n.underline {
                    out.append("§n");
                }
                if let Some(true) = n.italic {
                    out.append("§o");
                }
                if let Some(c) = &n.color {
                    let code = MinecraftColorCodes::from(c.as_str());
                    out.append(color_literal(code));
                }
                proof {
                    assert(out@ =~= node_codes(*n));
                }
                if let Some(t) = &n.text {
                    out.append(t.as_str());
                }
                proof {
                    assert(out@ =~= node_codes(*n) + node_text(*n));
                }
                if let Some(v) = &n.extra {
                    let mut i: usize = 0;
                    while i < v.len()
                        invariant
                            i <= v@.len(),
                            *value == Description::Node(*n),
                            n.extra matches Some(ev) && ev == *v,
                            out@ == node_codes(*n) + node_text(*n) + format_items(
                                v@.take(i as int),
                            ),
                        decreases v@.len() - i,
                    {
                        proof {
                            vstd::std_specs::vec::axiom_vec_decreases_to_view::<Description>(*v);
                            vstd::seq::axiom_seq_index_decreases::<Description>(v@, i as int);
                            assert(decreases_to!(*value => value->Node_0));
                            assert(decreases_to!(value->Node_0 => n.extra));
                            assert(decreases_to!(*value => v@[i as int]));
                        }
                        let part = self.build_formatted_description(&v[i]);
                        out.append(part.as_str());
                        proof {
                            assert(v@.take(i + 1) =~= v@.take(i as int).push(v@[i as int]));
                            lemma_format_items_snoc(v@.take(i as int), v@[i as int]);
                        }
                        i = i + 1;
                    }
                    proof {
                        assert(v@.take(v@.len() as int) =~= v@);
                    }
                }
                out
            },
            Description::Empty => String::new(),
        }
    }
}

} // verus!
