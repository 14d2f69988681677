use rolebot::deals::{
    deal_pointer, deal_tier, deal_title, format_itad_deal_uri, format_itad_info_uri,
    format_itad_plain_uri, info_pointer, is_on_sale, DealTier, ItadInfo,
};

#[test]
fn plain_uri_percent_encodes_the_title() {
    assert_eq!(
        format_itad_plain_uri("KEY", "arma 3"),
        "https://api.isthereanydeal.com/v02/game/plain/?key=KEY&title=arma%203"
    );
    assert_eq!(
        format_itad_plain_uri("k", "Half-Life: Alyx?"),
        "https://api.isthereanydeal.com/v02/game/plain/?key=k&title=Half%2DLife%3A%20Alyx%3F"
    );
    assert_eq!(
        format_itad_plain_uri("k", "é"),
        "https://api.isthereanydeal.com/v02/game/plain/?key=k&title=%C3%A9"
    );
    assert_eq!(format_itad_plain_uri("k", ""), "https://api.isthereanydeal.com/v02/game/plain/?key=k&title=");
}

#[test]
fn deal_and_info_uris() {
    assert_eq!(
        format_itad_deal_uri("KEY", "arma3"),
        "https://api.isthereanydeal.com/v01/game/prices/?key=KEY&plains=arma3&country=US"
    );
    assert_eq!(
        format_itad_info_uri("KEY", "arma3"),
        "https://api.isthereanydeal.com/v01/game/info/?key=KEY&plains=arma3"
    );
}

#[test]
fn answer_pointers() {
    assert_eq!(deal_pointer("arma3"), "/data/arma3/list/0");
    assert_eq!(info_pointer("arma3"), "/data/arma3");
}

#[test]
fn tiers_at_their_bounds() {
    assert_eq!(deal_tier(0), DealTier::Small);
    assert_eq!(deal_tier(24), DealTier::Small);
    assert_eq!(deal_tier(25), DealTier::Fair);
    assert_eq!(deal_tier(49), DealTier::Fair);
    assert_eq!(deal_tier(50), DealTier::Large);
    assert_eq!(deal_tier(100), DealTier::Large);
    assert_eq!(deal_tier(-1), DealTier::Large);
}

#[test]
fn sale_means_a_nonzero_cut() {
    assert!(!is_on_sale(0));
    assert!(is_on_sale(10));
}

#[test]
fn title_prefers_the_service_name() {
    let info = Some(ItadInfo { title: "Arma 3".to_string(), image: "pic".to_string() });
    assert_eq!(deal_title(&info, "arma"), "Deals for Arma 3");
    assert_eq!(deal_title(&None, "arma"), "Deals for arma");
}
