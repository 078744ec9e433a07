use mcscan::utils::hex_to_nearest_legacy;
use mcscan::utils::MinecraftColorCodes;
use mcscan::utils::RunError;

#[test]
fn test_hex_conversion() {
    // Exact matches for legacy color definitions
    assert_eq!(MinecraftColorCodes::from("#FF5555"), MinecraftColorCodes::Red);
    assert_eq!(MinecraftColorCodes::from("#AA0000"), MinecraftColorCodes::DarkRed);
    assert_eq!(MinecraftColorCodes::from("#00AA00"), MinecraftColorCodes::DarkGreen);
    assert_eq!(MinecraftColorCodes::from("#FFFFFF"), MinecraftColorCodes::White);
    assert_eq!(MinecraftColorCodes::from("#000000"), MinecraftColorCodes::Black);

    // Approximate colors
    // #FF0000 (Pure Red) is actually closer to Dark Red (AA0000) than Red (FF5555) in Euclidean RGB
    assert_eq!(MinecraftColorCodes::from("#FF0000"), MinecraftColorCodes::DarkRed);
    assert_eq!(MinecraftColorCodes::from("#FE5555"), MinecraftColorCodes::Red); // Almost Red
    assert_eq!(MinecraftColorCodes::from("#111111"), MinecraftColorCodes::Black); // Almost black
}

#[test]
fn color_names_and_aliases() {
    assert_eq!(MinecraftColorCodes::from("black"), MinecraftColorCodes::Black);
    assert_eq!(MinecraftColorCodes::from("dark_purple"), MinecraftColorCodes::DarkPurple);
    assert_eq!(MinecraftColorCodes::from("purple"), MinecraftColorCodes::DarkPurple);
    assert_eq!(MinecraftColorCodes::from("gray"), MinecraftColorCodes::Gray);
    assert_eq!(MinecraftColorCodes::from("grey"), MinecraftColorCodes::Gray);
    assert_eq!(MinecraftColorCodes::from("dark_grey"), MinecraftColorCodes::DarkGray);
    assert_eq!(MinecraftColorCodes::from("pink"), MinecraftColorCodes::LightPurple);
    assert_eq!(MinecraftColorCodes::from("light_purple"), MinecraftColorCodes::LightPurple);
    assert_eq!(MinecraftColorCodes::from("reset"), MinecraftColorCodes::Reset);
    assert_eq!(MinecraftColorCodes::from("no such color"), MinecraftColorCodes::UnknownValue);
    assert_eq!(MinecraftColorCodes::from("BLACK"), MinecraftColorCodes::UnknownValue);
    assert_eq!(MinecraftColorCodes::from("#12345"), MinecraftColorCodes::UnknownValue);
}

#[test]
fn color_codes() {
    assert_eq!(MinecraftColorCodes::Black.get_code(), '0');
    assert_eq!(MinecraftColorCodes::Gold.get_code(), '6');
    assert_eq!(MinecraftColorCodes::Aqua.get_code(), 'b');
    assert_eq!(MinecraftColorCodes::White.get_code(), 'f');
    assert_eq!(MinecraftColorCodes::Reset.get_code(), 'r');
    assert_eq!(MinecraftColorCodes::UnknownValue.get_code(), 'r');
}

#[test]
fn hex_components_that_do_not_parse_count_as_zero() {
    // A broken component counts as zero, so "#GG0000" maps like "#000000".
    assert_eq!(hex_to_nearest_legacy("#GG0000"), MinecraftColorCodes::Black);
    // Lower-case hex digits work.
    assert_eq!(hex_to_nearest_legacy("#ff5555"), MinecraftColorCodes::Red);
}

#[test]
fn error_codes() {
    assert_eq!(usize::from(RunError::AddressParseError), 0);
    assert_eq!(usize::from(RunError::IOError), 1);
    assert_eq!(usize::from(RunError::MalformedResponse), 2);
    assert_eq!(usize::from(RunError::ParseResponse), 3);
    assert_eq!(usize::from(RunError::TimedOut), 4);
    assert_eq!(usize::from(RunError::ServerOptOut), 5);
    assert_eq!(usize::from(RunError::DatabaseError), 6);
}
