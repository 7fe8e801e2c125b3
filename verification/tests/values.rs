use depict::asset::{Asset, Font, Image};
use depict::color::{Color, BLACK, BLUE, CLEAR, CYAN, GREEN, MAGENTA, RED, WHITE, YELLOW};
use depict::geometry::{clamped, offset};
use depict::id::IDFactory;
use depict::memory::Memory;
use depict::properties::{scaled, Size};
use depict::tracker::Tracker;

#[test]
fn ids_count_up_from_zero() {
    let mut ids = IDFactory::new();
    assert_eq!(ids.next(), 0);
    assert_eq!(ids.next(), 1);
    assert_eq!(ids.next(), 2);
    assert!(!ids.exhausted());
    ids.reset();
    assert_eq!(ids.next(), 0);
}

#[test]
fn tracker_remembers_the_last_step() {
    let mut tracker = Tracker::new(5);
    assert_eq!((*tracker.last(), *tracker.get()), (5, 5));
    tracker.set(8);
    assert_eq!((*tracker.last(), *tracker.get()), (5, 8));
    tracker.step();
    assert_eq!((*tracker.last(), *tracker.get()), (8, 8));
    *tracker.get_mut() += 1;
    assert_eq!((*tracker.last(), *tracker.get()), (8, 9));
}

#[test]
fn asset_handles() {
    let image: Asset<Image> = Asset::new(3);
    assert!(image.valid());
    assert_eq!(image.id(), 3);
    let font: Asset<Font> = Asset::default();
    assert!(!font.valid());
    assert_eq!(font.id(), u32::MAX);
    assert_eq!(image.clone(), image);
}

#[test]
fn memory_starts_forgotten() {
    let memory = Memory::new(7u8);
    assert_eq!(memory.value, 7);
    assert!(!memory.remembered);
}

#[test]
fn size_holds_width_and_height() {
    assert_eq!(Size::new(800, 600), Size { width: 800, height: 600 });
}

#[test]
fn colors_pack_into_hex_words() {
    let color = Color::from_hex(0x11223344);
    assert_eq!(color, Color::new(0x11, 0x22, 0x33, 0x44));
    assert_eq!(color.to_hex(), 0x11223344);
    assert_eq!(color.to_array(), [0x11, 0x22, 0x33, 0x44]);
    assert_eq!(Color::from_rgb(1, 2, 3), Color::from_rgba(1, 2, 3, 255));
    assert_eq!(Color::clear(), Color::from_hex(CLEAR));
    assert_eq!(Color::black(), Color::from_hex(BLACK));
    for word in [RED, GREEN, BLUE, CYAN, MAGENTA, YELLOW, BLACK, WHITE, CLEAR, 0, u32::MAX, 0xDEADBEEF] {
        assert_eq!(Color::from_hex(word).to_hex(), word);
    }
    assert_eq!(Color::from_hex(RED), Color::from_rgb(255, 0, 0));
    assert_eq!(Color::from_hex(YELLOW), Color::from_rgb(255, 255, 0));
}

#[test]
fn lengths_scale_by_hundredths() {
    assert_eq!(scaled(16, 100), 16);
    assert_eq!(scaled(16, 120), 19);
    assert_eq!(scaled(16, 150), 24);
    assert_eq!(scaled(0, 500), 0);
    assert_eq!(scaled(u32::MAX, 200), u32::MAX);
}

#[test]
fn coordinates_stay_in_range() {
    assert_eq!(clamped(17), 17);
    assert_eq!(clamped(-17), -17);
    assert_eq!(clamped(i32::MAX as i128 + 1), i32::MAX);
    assert_eq!(clamped(i32::MIN as i128 - 1), i32::MIN);
    assert_eq!(offset(-5, 10), 5);
    assert_eq!(offset(i32::MAX - 1, 10), i32::MAX);
}
