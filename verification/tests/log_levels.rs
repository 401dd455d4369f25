//! Log levels.

use way_netstack::log::{enabled, LogLevel};

const LEVELS: [LogLevel; 5] =
    [LogLevel::Off, LogLevel::Error, LogLevel::Warning, LogLevel::Info, LogLevel::Debug];

#[test]
fn ordinals_follow_the_order_of_levels() {
    for (i, level) in LEVELS.iter().enumerate() {
        assert_eq!(level.ordinal() as usize, i);
    }
}

#[test]
fn a_level_includes_itself_and_lower_ones() {
    for configured in LEVELS {
        for level in LEVELS {
            assert_eq!(configured.includes(level), configured >= level);
            assert_eq!(enabled(configured, level), configured >= level);
        }
    }
}

#[test]
fn off_silences_everything() {
    for level in &LEVELS[1..] {
        assert!(!enabled(LogLevel::Off, *level));
    }
}
