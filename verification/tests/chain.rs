use channel_node::chain::same_text;
use channel_node::chain::UrgencyTier;
use channel_node::chain::MIN_FEERATE;

#[test]
fn estimate_is_taken_above_the_least_rate() {
    assert_eq!(UrgencyTier::Normal.fee_rate(Some(1_000)), 1_000);
    assert_eq!(UrgencyTier::Background.fee_rate(Some(254)), 254);
    assert_eq!(UrgencyTier::HighPriority.fee_rate(Some(u32::MAX)), u32::MAX);
    assert_eq!(UrgencyTier::Normal.fee_rate(Some(253)), 253);
}

#[test]
fn estimate_below_the_least_rate_is_raised() {
    assert_eq!(MIN_FEERATE, 253);
    assert_eq!(UrgencyTier::Normal.fee_rate(Some(252)), 253);
    assert_eq!(UrgencyTier::HighPriority.fee_rate(Some(0)), 253);
}

#[test]
fn missing_estimate_falls_back_by_tier() {
    assert_eq!(UrgencyTier::Background.fee_rate(None), 253);
    assert_eq!(UrgencyTier::Normal.fee_rate(None), 2_000);
    assert_eq!(UrgencyTier::HighPriority.fee_rate(None), 5_000);
}

#[test]
fn tiers_confirm_within_their_blocks() {
    assert_eq!(UrgencyTier::Background.confirmation_target(), 144);
    assert_eq!(UrgencyTier::Normal.confirmation_target(), 18);
    assert_eq!(UrgencyTier::HighPriority.confirmation_target(), 6);
}

#[test]
fn same_text_compares_texts() {
    assert!(same_text("", ""));
    assert!(same_text("regtest", "regtest"));
    assert!(!same_text("regtest", "regtes"));
    assert!(!same_text("regtest", "Regtest"));
    assert!(same_text("é", "é"));
    assert!(!same_text("é", "e"));
}
