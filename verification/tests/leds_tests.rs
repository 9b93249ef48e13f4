use ctaphid::leds::blink_leds;
use ctaphid::leds::led_step;
use ctaphid::leds::switch_off_leds;
use ctaphid::leds::wink_leds;
use ctaphid::leds::Leds;
use ctaphid::wink::WinkPermission;

fn lit(l0: bool, l1: bool, l2: bool, l3: bool) -> Leds {
    Leds { l0, l1, l2, l3 }
}

#[test]
fn blink_follows_bit_population_parity() {
    let on = lit(true, true, true, true);
    let off = lit(false, false, false, false);
    assert_eq!(blink_leds(0), off);
    assert_eq!(blink_leds(1), on);
    assert_eq!(blink_leds(2), on);
    assert_eq!(blink_leds(3), off);
    assert_eq!(blink_leds(4), on);
    assert_eq!(blink_leds(5), off);
    assert_eq!(blink_leds(6), off);
    assert_eq!(blink_leds(7), on);
    assert_eq!(blink_leds(255), off);
    assert_eq!(blink_leds(256), on);
}

#[test]
fn wink_snake_circles_with_the_wiring_swap() {
    // Lit logical positions are { s/2 mod 4, (s+1)/2 mod 4, (s+3)/2 mod 4 },
    // shown with logical positions 2 and 3 exchanged.
    assert_eq!(wink_leds(0), lit(true, true, false, false)); // {0, 1}
    assert_eq!(wink_leds(1), lit(true, true, false, true)); // {0, 1, 2}
    assert_eq!(wink_leds(2), lit(false, true, false, true)); // {1, 2}
    assert_eq!(wink_leds(3), lit(false, true, true, true)); // {1, 2, 3}
    assert_eq!(wink_leds(4), lit(false, false, true, true)); // {2, 3}
    assert_eq!(wink_leds(5), lit(true, false, true, true)); // {0, 2, 3}
    assert_eq!(wink_leds(6), lit(true, false, true, false)); // {0, 3}
    assert_eq!(wink_leds(7), lit(true, true, true, false)); // {0, 1, 3}
    // The animation has period 8.
    assert_eq!(wink_leds(8), wink_leds(0));
    assert_eq!(wink_leds(9), wink_leds(1));
}

#[test]
fn switch_off_turns_everything_off() {
    assert_eq!(switch_off_leds(), lit(false, false, false, false));
}

#[test]
fn led_step_advances_only_after_a_full_delay() {
    assert_eq!(led_step(3, 1000, 2001, 1000), (4, 2001));
    assert_eq!(led_step(3, 1000, 2000, 1000), (3, 1000));
    assert_eq!(led_step(3, 1000, 1500, 1000), (3, 1000));
    // Wrapping clock: the elapsed time is computed by wrapping subtraction.
    assert_eq!(led_step(3, u64::MAX - 5, 3000, 1000), (4, 3000));
    assert_eq!(led_step(3, u64::MAX - 5, 100, 1000), (3, u64::MAX - 5));
}

#[test]
fn wink_permission_expires() {
    let grant = WinkPermission::granted(1000, 500);
    assert!(grant.is_granted(1000));
    assert!(grant.is_granted(1499));
    assert!(!grant.is_granted(1500)); // the expiry instant has elapsed
    assert!(!grant.is_granted(2000));
}

#[test]
fn wink_permission_never_regrants_on_a_wrapping_clock() {
    let grant = WinkPermission::granted(1000, 500);
    // Far in the future, even where wrapping subtraction turns negative
    // again, the enforced permission stays cleared.
    let late = grant.check_expiration(2000);
    assert!(!late.is_granted(2000));
    assert!(!late.is_granted(1200)); // a rolled-back clock finds no grant
    let kept = grant.check_expiration(1200);
    assert!(kept.is_granted(1200));
}

#[test]
fn denied_wink_permission_is_never_granted() {
    let denied = WinkPermission::denied();
    assert!(!denied.is_granted(0));
    assert!(!denied.is_granted(u64::MAX));
}
