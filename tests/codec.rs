use yarl_2::codec::{ch_to_u8, encode, u8_to_ch};

#[test]
fn every_glyph_decodes_and_encodes_back() {
    for b in 0..=255u8 {
        let c = u8_to_ch(b);
        assert_eq!(encode(c), Some(b));
        assert_eq!(ch_to_u8(c), b);
    }
}

#[test]
fn ascii_maps_to_itself() {
    assert_eq!(encode('H'), Some(72));
    assert_eq!(encode('~'), Some(126));
    assert_eq!(encode('\0'), Some(0));
    assert_eq!(u8_to_ch(65), 'A');
}

#[test]
fn code_page_symbols_map_to_their_slots() {
    assert_eq!(encode('☺'), Some(1));
    assert_eq!(u8_to_ch(1), '☺');
    assert_eq!(u8_to_ch(3), '♥');
    assert_eq!(ch_to_u8('♥'), 3);
}

#[test]
fn unmappable_characters_encode_to_none() {
    for c in "ĄĘĆŹŻŃŁąęćźżńł".chars() {
        assert_eq!(encode(c), None);
    }
}
