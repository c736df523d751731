use huaga::exact::truncate_quotient;
use huaga::zoom_curve::next_anchor_size;

#[test]
fn scroll_at_natural_size_adds_three_percent() {
    // ratio 1, delta +50: undamped, 100 * 0.03 = 3
    assert_eq!(next_anchor_size(100, 100, 50), 103);
}

#[test]
fn ratio_one_is_undamped_in_both_directions() {
    assert_eq!(next_anchor_size(100, 100, -50), 97);
    assert_eq!(next_anchor_size(1000, 1000, 1), 1030);
    assert_eq!(next_anchor_size(1000, 1000, -1), 970);
}

#[test]
fn only_the_sign_of_the_delta_matters() {
    assert_eq!(next_anchor_size(2000, 1000, 1), next_anchor_size(2000, 1000, 50));
    assert_eq!(next_anchor_size(2000, 1000, -1), next_anchor_size(2000, 1000, i32::MIN));
    assert_eq!(next_anchor_size(2000, 1000, 7), next_anchor_size(2000, 1000, i32::MAX));
}

#[test]
fn zero_delta_changes_nothing() {
    assert_eq!(next_anchor_size(100, 100, 0), 100);
    assert_eq!(next_anchor_size(2000, 1000, 0), 2000);
    assert_eq!(next_anchor_size(250, 1000, 0), 250);
}

#[test]
fn pushing_away_from_one_is_damped() {
    // ratio 1/2, zooming in further: hyper = 1 - 1/(0.4 * 3.5) = 2/7,
    // delta = 200 * 0.03 * 2/7 = 1.714...
    assert_eq!(next_anchor_size(200, 100, 50), 201);
    // ratio 1/2 on a larger image: 2000 * 0.03 * 2/7 = 17.14...
    assert_eq!(next_anchor_size(2000, 1000, 50), 2017);
    // ratio 4/5: hyper = 1 - 1/(0.7 * 3.2) = 0.5535..., delta = 20.75...
    assert_eq!(next_anchor_size(1250, 1000, 50), 1270);
    // ratio 2, zooming out further: hyper = 1 - 1/(1.9 * 2) = 0.7368...,
    // delta = -500 * 0.03 * 0.7368... = -11.05..., 488.94... truncates to 488
    assert_eq!(next_anchor_size(500, 1000, -50), 488);
}

#[test]
fn pushing_toward_one_is_full_speed() {
    assert_eq!(next_anchor_size(200, 100, -50), 194);
    assert_eq!(next_anchor_size(2000, 1000, -50), 1940);
    assert_eq!(next_anchor_size(500, 1000, 50), 515);
}

#[test]
fn damping_is_zero_at_the_bounds() {
    // ratio exactly 1/10: zooming in further stalls, zooming back does not
    assert_eq!(next_anchor_size(1000, 100, 50), 1000);
    assert_eq!(next_anchor_size(1000, 100, -50), 970);
    // ratio exactly 4: zooming out further stalls, zooming back does not
    assert_eq!(next_anchor_size(250, 1000, -50), 250);
    assert_eq!(next_anchor_size(250, 1000, 50), 257);
    // beyond the bounds
    assert_eq!(next_anchor_size(5000, 100, 50), 5000);
    assert_eq!(next_anchor_size(100, 1000, -50), 100);
}

#[test]
fn damping_is_zero_just_inside_the_bounds() {
    // ratio 1/9: (1/9 - 1/10) * (4 - 1/9) is far below 10/9
    assert_eq!(next_anchor_size(900, 100, 50), 900);
    // ratio 0.37: span 0.27 * 3.63 = 0.98 < 10/9
    assert_eq!(next_anchor_size(10000, 3700, 50), 10000);
    // ratio 0.5: span 1.4 > 10/9, damped but moving
    assert_eq!(next_anchor_size(10000, 5000, 50), 10085);
    // ratio 3.7: span 3.6 * 0.3 = 1.08 < 10/9
    assert_eq!(next_anchor_size(1000, 3700, -50), 1000);
}

#[test]
fn damping_falls_toward_either_bound() {
    let natural = 100_000;
    // zooming in: the ratio falls from 1 toward 1/10
    let mut last_gain = i64::MAX;
    for anchor in [110_000, 150_000, 200_000, 300_000, 500_000, 800_000, 990_000] {
        let next = next_anchor_size(anchor, natural, 1);
        // gain per unit of anchor, scaled
        let gain = (next as i64 - anchor as i64) * 1_000_000 / anchor as i64;
        assert!(gain >= 0);
        assert!(gain <= 30_000);
        assert!(gain <= last_gain, "gain rose at anchor {}", anchor);
        last_gain = gain;
    }
    assert_eq!(last_gain, 0);
    // zooming out: the ratio rises from the midpoint toward 4
    let mut last_loss = i64::MAX;
    for anchor in [48_000, 40_000, 33_000, 29_000, 26_000, 25_100] {
        let next = next_anchor_size(anchor, natural, -1);
        let loss = (anchor as i64 - next as i64) * 1_000_000 / anchor as i64;
        assert!(loss >= 0);
        assert!(loss <= 30_000);
        assert!(loss <= last_loss, "loss rose at anchor {}", anchor);
        last_loss = loss;
    }
    assert_eq!(last_loss, 0);
}

#[test]
fn one_step_stays_within_the_ratio_bounds() {
    for anchor in (2..3000).chain([65_536, 1_000_000, 400_000_000, i32::MAX - 1, i32::MAX]) {
        for natural in [1, 2, 3, 10, 99, 100, 101, 1000, 123_456, i32::MAX] {
            for raw_delta in [-50, -1, 0, 1, 50] {
                let next = next_anchor_size(anchor, natural, raw_delta) as i64;
                assert!(anchor as i64 <= 10 * next);
                assert!(next <= 4 * anchor as i64);
            }
        }
    }
}

#[test]
fn an_anchor_of_one_can_collapse_to_zero() {
    assert_eq!(next_anchor_size(1, 1, -1), 0);
}

#[test]
fn small_anchors_lose_their_gain_to_truncation() {
    // 25 * 1.03 = 25.75
    assert_eq!(next_anchor_size(25, 100, 50), 25);
    // 34 * 1.03 = 35.02
    assert_eq!(next_anchor_size(34, 34, 50), 35);
}

#[test]
fn the_result_is_clipped_into_the_integer_range() {
    assert_eq!(next_anchor_size(i32::MAX, i32::MAX, 1), i32::MAX);
    // 2147483647 * 0.97 = 2083059137.59
    assert_eq!(next_anchor_size(i32::MAX, i32::MAX, -1), 2_083_059_137);
    assert_eq!(next_anchor_size(2_100_000_000, 2_100_000_000, 1), i32::MAX);
}

#[test]
fn a_negative_anchor_follows_the_same_rules() {
    // ratio -1, toward one: the delta is +3, which is not negative, so the
    // result is held at four times the old anchor
    assert_eq!(next_anchor_size(-100, 100, 50), -400);
    // ratio -1, away from one: the delta is damped to zero, which is not
    // negative either
    assert_eq!(next_anchor_size(-100, 100, -50), -400);
    // ratio 2, toward one: the delta is -3, so the result is held at a tenth
    // of the old anchor
    assert_eq!(next_anchor_size(-100, -200, -50), -10);
    // four times the anchor lies below the integer range
    assert_eq!(next_anchor_size(-1_073_741_824, 100, 50), i32::MIN);
    assert_eq!(next_anchor_size(i32::MIN, 100, 50), i32::MIN);
    assert_eq!(next_anchor_size(i32::MIN, i32::MIN, -50), -214_748_364);
}

#[test]
fn a_natural_size_of_zero_or_less_never_damps_the_way_back() {
    assert_eq!(next_anchor_size(100, 0, 50), 100);
    assert_eq!(next_anchor_size(100, 0, -50), 97);
    assert_eq!(next_anchor_size(100, -7, 50), 100);
}

#[test]
fn quotients_truncate_toward_zero() {
    assert_eq!(truncate_quotient(7, 2), 3);
    assert_eq!(truncate_quotient(-7, 2), -3);
    assert_eq!(truncate_quotient(6, 3), 2);
    assert_eq!(truncate_quotient(-1, 3), 0);
    assert_eq!(truncate_quotient(0, 5), 0);
}

#[test]
fn quotients_saturate_at_the_ends_of_the_range() {
    assert_eq!(truncate_quotient(1 << 40, 1), i32::MAX);
    assert_eq!(truncate_quotient(-(1 << 40), 1), i32::MIN);
    assert_eq!(truncate_quotient(i32::MAX as i128, 1), i32::MAX);
    assert_eq!(truncate_quotient(i32::MIN as i128, 1), i32::MIN);
    assert_eq!(truncate_quotient(i128::MAX, 1), i32::MAX);
}
