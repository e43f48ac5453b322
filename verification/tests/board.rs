use mine_with_friends::entity::EntityID;
use mine_with_friends::game::{FinishReason, GameBoard, GameSetup, MoveRejectReason};
use mine_with_friends::game_move::{
    Chat, GameMove, Heartbeat, ListNFTForSale, MintPowerPlant, MoveEnvelope, PurchaseNFT,
    RemoveTokens, SendTokens, Trade, Unsanitized,
};
use mine_with_friends::token_swap::{ConstantFunctionMarketMaker, ConstantFunctionMarketMakerPair, TradeError};
use mine_with_friends::nfts::{NftPtr, PlantType};
use mine_with_friends::token_swap::TradingPairID;

const ALICE: &str = "alice";
const BOB: &str = "bob";

fn setup_game() -> GameBoard {
    let setup = GameSetup {
        players: vec![ALICE.into(), BOB.into()],
        start_amount: 10_000_000,
        finish_time: 1_000_000,
    };
    GameBoard::new(&setup)
}

fn mv(d: GameMove, sequence: u64, time_millis: u64) -> MoveEnvelope {
    MoveEnvelope { d: Unsanitized(d), sequence, time_millis }
}

fn heartbeat(sequence: u64, time_millis: u64) -> MoveEnvelope {
    mv(GameMove::Heartbeat(Heartbeat()), sequence, time_millis)
}

fn play(game: &mut GameBoard, by: &str, m: MoveEnvelope) -> Result<(), MoveRejectReason> {
    game.play(m, by.to_string())
}

fn buy_asics(game: &GameBoard, amount_b: u128, sell: bool) -> GameMove {
    GameMove::Trade(Trade {
        pair: TradingPairID { asset_a: game.bitcoin_token_id, asset_b: game.asic_token_id },
        amount_a: 0,
        amount_b,
        sell,
        cap: None,
    })
}

/// The plant that the player minted during the test (players also start the
/// game with a plant of their own, elsewhere).
fn minted_plant(game: &GameBoard, id: EntityID) -> NftPtr {
    let plants = game.get_user_power_plants(id);
    let (k, _) = plants
        .power_plant_data
        .iter()
        .find(|(_, p)| p.coordinates == (15, 15))
        .unwrap();
    NftPtr(EntityID(*k))
}

fn super_mint() -> GameMove {
    GameMove::SuperMintPowerPlant(MintPowerPlant {
        scale: 1,
        plant_type: PlantType::Solar,
        location: (15, 15),
    })
}

#[test]
fn test_game_termination_time() {
    let mut game = setup_game();
    assert!(play(&mut game, ALICE, heartbeat(0, 123)).is_ok());
    assert!(play(&mut game, BOB, heartbeat(0, 455)).is_ok());
    assert!(play(&mut game, ALICE, heartbeat(1, 3000000000)).is_ok());
    let _ = play(&mut game, BOB, heartbeat(1, 700));
    assert!(matches!(game.game_is_finished(), Some(FinishReason::TimeExpired)));
}

#[test]
fn test_game_swaps() {
    let mut game = setup_game();
    assert!(play(&mut game, ALICE, heartbeat(0, 123)).is_ok());
    assert!(play(&mut game, BOB, heartbeat(0, 1232)).is_ok());

    let m = buy_asics(&game, 1, false);
    let r = play(&mut game, ALICE, mv(m, 1, 1000));
    assert!(r.is_ok());
    let id = game.get_user_id(ALICE).unwrap();
    assert_eq!(game.tokens.balance_check(game.asic_token_id, &id), 1);
    assert_eq!(game.tokens.balance_check(game.steel_token_id, &id), 0);
    assert_eq!(game.tokens.balance_check(game.silicon_token_id, &id), 0);
    assert_eq!(game.tokens.balance_check(game.concrete_token_id, &id), 0);

    let m = buy_asics(&game, 1, true);
    assert!(play(&mut game, ALICE, mv(m, 2, 2000)).is_ok());
    assert_eq!(game.tokens.balance_check(game.asic_token_id, &id), 0);

    let m = buy_asics(&game, 25, false);
    assert!(play(&mut game, ALICE, mv(m, 3, 3000)).is_ok());
    assert_eq!(game.tokens.balance_check(game.asic_token_id, &id), 25);

    let m = buy_asics(&game, 10, true);
    assert!(play(&mut game, ALICE, mv(m, 4, 4000)).is_ok());
    assert_eq!(game.tokens.balance_check(game.asic_token_id, &id), 15);

    let m = buy_asics(&game, 2000, true);
    let r = play(&mut game, ALICE, mv(m, 5, 5000));
    assert!(matches!(r, Err(MoveRejectReason::TradeRejected(_))));
    assert_eq!(game.tokens.balance_check(game.asic_token_id, &id), 15);

    let m = buy_asics(&game, 200000000000000, false);
    let r = play(&mut game, ALICE, mv(m, 6, 6000));
    assert!(matches!(r, Err(MoveRejectReason::TradeRejected(_))));
    assert_eq!(game.tokens.balance_check(game.asic_token_id, &id), 15);
}

#[test]
fn test_super_mint() {
    let mut game = setup_game();
    assert!(play(&mut game, ALICE, heartbeat(0, 123)).is_ok());
    assert!(play(&mut game, BOB, heartbeat(0, 1232)).is_ok());
    assert!(play(&mut game, BOB, heartbeat(1, 30000)).is_ok());
    let r = play(&mut game, ALICE, mv(super_mint(), 1, 1000));
    assert!(r.is_ok());
    let id = game.get_user_id(ALICE).unwrap();
    let plants = game.get_user_power_plants(id);
    let plant = plants.power_plant_data.get(&minted_plant(&game, id).0 .0).unwrap();
    assert_eq!(plant.plant_type, PlantType::Solar);
}

#[test]
fn test_send_tokens_to_plant() {
    let mut game = setup_game();
    assert!(play(&mut game, ALICE, heartbeat(0, 123)).is_ok());
    assert!(play(&mut game, BOB, heartbeat(0, 1232)).is_ok());
    assert!(play(&mut game, BOB, heartbeat(1, 30000)).is_ok());
    assert!(play(&mut game, ALICE, mv(super_mint(), 1, 1000)).is_ok());
    let id = game.get_user_id(ALICE).unwrap();
    let plant_id = minted_plant(&game, id);
    let btc_balance_before_mining = game.tokens.balance_check(game.bitcoin_token_id, &id);

    let m = buy_asics(&game, 1, false);
    assert!(play(&mut game, ALICE, mv(m, 2, 2000)).is_ok());
    let send = GameMove::SendTokens(SendTokens {
        to: plant_id.inner(),
        amount: 1,
        currency: game.asic_token_id,
    });
    let v = play(&mut game, ALICE, mv(send, 3, 3000));
    assert!(v.is_ok());
    let plant_now = minted_plant(&game, id);
    assert_eq!(1, game.tokens.balance_check(game.asic_token_id, &plant_now.inner()));
    assert!(play(&mut game, ALICE, heartbeat(4, 100000)).is_ok());

    let btc_balance_after_mining = game.tokens.balance_check(game.bitcoin_token_id, &id);
    assert!(btc_balance_after_mining > btc_balance_before_mining);

    assert!(play(&mut game, ALICE, heartbeat(5, 1_500_000)).is_ok());
    let v = play(&mut game, ALICE, heartbeat(6, 1_500_200));
    let alice = game.get_user_id(ALICE).unwrap();
    assert!(matches!(
        v,
        Err(MoveRejectReason::GameIsFinished(FinishReason::DominatingPlayer(id))) if id == alice
    ));
}

#[test]
fn test_remove_tokens_from_plant() {
    let mut game = setup_game();
    assert!(play(&mut game, ALICE, heartbeat(0, 123)).is_ok());
    assert!(play(&mut game, BOB, heartbeat(0, 1232)).is_ok());
    assert!(play(&mut game, ALICE, mv(super_mint(), 1, 1000)).is_ok());
    let id = game.get_user_id(ALICE).unwrap();
    let plant_id = minted_plant(&game, id);

    let m = buy_asics(&game, 1, false);
    assert!(play(&mut game, ALICE, mv(m, 2, 2000)).is_ok());
    let send = GameMove::SendTokens(SendTokens {
        to: plant_id.inner(),
        amount: 1,
        currency: game.asic_token_id,
    });
    assert!(play(&mut game, ALICE, mv(send, 3, 3000)).is_ok());
    assert_eq!(1, game.tokens.balance_check(game.asic_token_id, &plant_id.inner()));
    assert!(play(&mut game, ALICE, heartbeat(4, 10000)).is_ok());

    let asics_before_removal = game.tokens.balance_check(game.asic_token_id, &id);
    let remove = GameMove::RemoveTokens(RemoveTokens {
        nft_id: plant_id,
        amount: 1,
        currency: game.asic_token_id,
    });
    assert!(play(&mut game, ALICE, mv(remove, 5, 12000)).is_ok());
    assert!(play(&mut game, ALICE, heartbeat(6, 13000)).is_ok());
    assert!(play(&mut game, BOB, heartbeat(1, 100_000)).is_ok());
    let asics_after_removal = game.tokens.balance_check(game.asic_token_id, &id);
    assert!(asics_after_removal > asics_before_removal);
}

#[test]
fn new_game_gives_each_player_a_working_plant() {
    let game = setup_game();
    for key in [ALICE, BOB] {
        let id = game.get_user_id(key).unwrap();
        let plants = game.get_user_power_plants(id);
        assert_eq!(plants.power_plant_data.len(), 1);
        let plant = plants.power_plant_data.values().next().unwrap();
        assert_eq!(plant.miners, 1);
        assert_eq!(plant.owner, id);
        assert!(plant.hashrate > 0);
    }
    assert!(game.get_user_id("carol").is_none());
}

#[test]
fn clock_never_goes_back() {
    let mut game = setup_game();
    let mut last = game.current_time();
    let moves = [(ALICE, 0, 5000), (BOB, 0, 9000), (ALICE, 1, 100), (BOB, 1, 200), (ALICE, 2, 20000)];
    for (who, seq, t) in moves {
        assert!(play(&mut game, who, heartbeat(seq, t)).is_ok());
        assert!(game.current_time() >= last);
        last = game.current_time();
    }
}

#[test]
fn replayed_move_is_ignored() {
    let mut game = setup_game();
    assert!(play(&mut game, ALICE, heartbeat(0, 123)).is_ok());
    assert!(play(&mut game, BOB, heartbeat(0, 1232)).is_ok());
    let m = buy_asics(&game, 1, false);
    assert!(play(&mut game, ALICE, mv(m.clone(), 1, 1000)).is_ok());
    let id = game.get_user_id(ALICE).unwrap();
    assert_eq!(game.tokens.balance_check(game.asic_token_id, &id), 1);
    // the same envelope again is out of sequence: accepted and ignored
    assert!(play(&mut game, ALICE, mv(m, 1, 1000)).is_ok());
    assert_eq!(game.tokens.balance_check(game.asic_token_id, &id), 1);
}

#[test]
fn unknown_player_is_refused() {
    let mut game = setup_game();
    assert!(matches!(play(&mut game, "mallory", heartbeat(0, 1)), Err(MoveRejectReason::NoSuchUser)));
}

#[test]
fn test_sell_plant() {
    let mut game = setup_game();
    assert!(play(&mut game, ALICE, heartbeat(0, 123)).is_ok());
    assert!(play(&mut game, BOB, heartbeat(0, 500)).is_ok());
    assert!(play(&mut game, BOB, heartbeat(1, 900)).is_ok());
    assert!(play(&mut game, ALICE, mv(super_mint(), 1, 1000)).is_ok());
    let a_id = game.get_user_id(ALICE).unwrap();
    let plant_id = minted_plant(&game, a_id);
    let btc_token_id = game.bitcoin_token_id;
    let list = GameMove::ListNFTForSale(ListNFTForSale { nft_id: plant_id, price: 1, currency: btc_token_id });
    assert!(play(&mut game, ALICE, mv(list, 2, 2000)).is_ok());
    assert!(play(&mut game, ALICE, heartbeat(3, 3000)).is_ok());
    let buy = GameMove::PurchaseNFT(PurchaseNFT { nft_id: plant_id, currency: btc_token_id, limit_price: 2 });
    assert!(play(&mut game, BOB, mv(buy, 2, 10000)).is_ok());
    assert!(play(&mut game, BOB, heartbeat(3, 12000)).is_ok());
    let b_id = game.get_user_id(BOB).unwrap();
    let new_owner = game.nfts.nfts.get(&plant_id.0 .0).unwrap().owner();
    assert_eq!(new_owner, b_id);
}

#[test]
fn purchase_follows_the_offer() {
    let mut game = setup_game();
    let a = game.get_user_id(ALICE).unwrap();
    let b = game.get_user_id(BOB).unwrap();
    let plant = NftPtr(EntityID(*game.get_user_power_plants(a).power_plant_data.keys().next().unwrap()));
    let btc = game.bitcoin_token_id;
    // only the owner may offer
    game.list_nft(b, plant, 5, btc);
    assert!(game.nft_sales.nfts.is_empty());
    game.list_nft(a, plant, 5, btc);
    assert_eq!(game.get_ux_energy_market().unwrap().listings.len(), 1);
    assert!(game.get_ux_power_plant_data().iter().any(|p| p.id == plant && p.for_sale));
    // a limit below the price, or another currency, buys nothing
    game.purchase_nft(b, plant, 4, btc);
    assert_eq!(game.nfts.owner_of(plant), a);
    game.purchase_nft(b, plant, 5, game.real_sats_token_id);
    assert_eq!(game.nfts.owner_of(plant), a);
    let a_before = game.tokens.balance_check(btc, &a);
    let b_before = game.tokens.balance_check(btc, &b);
    game.purchase_nft(b, plant, 5, btc);
    assert_eq!(game.nfts.owner_of(plant), b);
    assert_eq!(game.tokens.balance_check(btc, &a), a_before + 5);
    assert_eq!(game.tokens.balance_check(btc, &b), b_before - 5);
    assert!(game.nft_sales.nfts.is_empty());
    // the offer is gone: buying again does nothing
    game.purchase_nft(a, plant, 5, btc);
    assert_eq!(game.nfts.owner_of(plant), b);
}

#[test]
fn buy_cap_bounds_the_amount_sold() {
    let mut game = setup_game();
    assert!(play(&mut game, ALICE, heartbeat(0, 123)).is_ok());
    assert!(play(&mut game, BOB, heartbeat(0, 1232)).is_ok());
    let pair = TradingPairID { asset_a: game.bitcoin_token_id, asset_b: game.asic_token_id };
    let tight = GameMove::Trade(Trade { pair, amount_a: 0, amount_b: 1, sell: false, cap: Some(1) });
    let r = play(&mut game, ALICE, mv(tight, 1, 1000));
    assert!(matches!(r, Err(MoveRejectReason::TradeRejected(TradeError::MarketSlipped))));
    let id = game.get_user_id(ALICE).unwrap();
    assert_eq!(game.tokens.balance_check(game.asic_token_id, &id), 0);
    let before = game.tokens.balance_check(game.bitcoin_token_id, &id);
    let loose = GameMove::Trade(Trade { pair, amount_a: 0, amount_b: 1, sell: false, cap: Some(10_000_000) });
    assert!(play(&mut game, ALICE, mv(loose, 2, 2000)).is_ok());
    assert_eq!(game.tokens.balance_check(game.asic_token_id, &id), 1);
    assert!(before - game.tokens.balance_check(game.bitcoin_token_id, &id) <= 10_000_000);
}

#[test]
fn chat_from_anyone_is_logged() {
    let mut game = setup_game();
    let r = game.play_inner(GameMove::Chat(Chat("hello".into())), EntityID(1));
    assert!(r.is_ok());
    assert_eq!(game.chat_counter, 1);
    assert_eq!(game.get_ux_chat_log().back().unwrap().2, "hello");
}

#[test]
fn move_range_check() {
    let game = setup_game();
    let a = game.get_user_id(ALICE).unwrap();
    let send = GameMove::SendTokens(SendTokens { to: a, amount: 1, currency: game.bitcoin_token_id });
    assert!(game.move_in_range_exec(&send, a));
    let bogus = GameMove::SendTokens(SendTokens {
        to: a,
        amount: 1,
        currency: mine_with_friends::tokens::TokenPointer(EntityID(3)),
    });
    assert!(!game.move_in_range_exec(&bogus, a));
}

#[test]
fn ensure_twice_finds_the_same_market() {
    let mut game = setup_game();
    let pair = TradingPairID { asset_a: game.real_sats_token_id, asset_b: game.steel_token_id };
    let back = TradingPairID { asset_a: game.steel_token_id, asset_b: game.real_sats_token_id };
    assert!(!ConstantFunctionMarketMakerPair::has_market(&game.swap, pair));
    let m1 = ConstantFunctionMarketMakerPair::ensure(&mut game.tokens, &mut game.swap, &mut game.alloc, pair);
    assert_eq!((m1.reserve_a, m1.reserve_b), (0, 0));
    assert_eq!(game.tokens.total_coins(m1.lp), 0);
    assert!(ConstantFunctionMarketMakerPair::has_market(&game.swap, back));
    let ids = game.alloc.0;
    let tokens = game.tokens.tokens.len();
    let m2 = ConstantFunctionMarketMakerPair::ensure(&mut game.tokens, &mut game.swap, &mut game.alloc, back);
    let m3 = ConstantFunctionMarketMakerPair::ensure(&mut game.tokens, &mut game.swap, &mut game.alloc, pair);
    assert_eq!(m1, m2);
    assert_eq!(m1, m3);
    assert_eq!(game.alloc.0, ids);
    assert_eq!(game.tokens.tokens.len(), tokens);
}

#[test]
fn simulated_buy_quotes_the_real_buy() {
    let mut game = setup_game();
    assert!(play(&mut game, ALICE, heartbeat(0, 123)).is_ok());
    assert!(play(&mut game, BOB, heartbeat(0, 1232)).is_ok());
    let a = game.get_user_id(ALICE).unwrap();
    let pair = TradingPairID { asset_a: game.bitcoin_token_id, asset_b: game.asic_token_id };
    let btc_before = game.tokens.balance_check(game.bitcoin_token_id, &a);
    let quote = game.simulate_buy_trade(pair, 0, 1, a).unwrap();
    assert_eq!(game.tokens.balance_check(game.asic_token_id, &a), 0);
    assert_eq!(game.tokens.balance_check(game.bitcoin_token_id, &a), btc_before);
    let real = ConstantFunctionMarketMaker::do_buy_trade(
        &mut game.tokens,
        &mut game.swap,
        &mut game.alloc,
        pair,
        0,
        1,
        None,
        false,
        a,
    )
    .unwrap();
    assert_eq!(real.amount_player_sold, quote.amount_player_sold);
    assert_eq!(real.amount_player_purchased, quote.amount_player_purchased);
    assert_eq!(game.tokens.balance_check(game.asic_token_id, &a), 1);
    assert_eq!(game.tokens.balance_check(game.bitcoin_token_id, &a), btc_before - quote.amount_player_sold);
}

#[test]
fn simulated_sell_quotes_the_real_sell() {
    let mut game = setup_game();
    assert!(play(&mut game, ALICE, heartbeat(0, 123)).is_ok());
    assert!(play(&mut game, BOB, heartbeat(0, 1232)).is_ok());
    let a = game.get_user_id(ALICE).unwrap();
    let pair = TradingPairID { asset_a: game.bitcoin_token_id, asset_b: game.asic_token_id };
    let btc_before = game.tokens.balance_check(game.bitcoin_token_id, &a);
    let quote = game.simulate_sell_trade(pair, 5_000_000, 0, a).unwrap();
    // The market charges what the bought amount costs, here a little less
    // than offered.
    assert_eq!(quote.amount_player_sold, 4_992_938);
    assert_eq!(game.tokens.balance_check(game.bitcoin_token_id, &a), btc_before);
    let real = ConstantFunctionMarketMaker::do_sell_trade(
        &mut game.tokens,
        &mut game.swap,
        &mut game.alloc,
        pair,
        5_000_000,
        0,
        None,
        false,
        a,
    )
    .unwrap();
    assert_eq!(real.amount_player_sold, quote.amount_player_sold);
    assert_eq!(real.amount_player_purchased, quote.amount_player_purchased);
    assert_eq!(game.tokens.balance_check(game.bitcoin_token_id, &a), btc_before - quote.amount_player_sold);
    assert_eq!(game.tokens.balance_check(game.asic_token_id, &a), quote.amount_player_purchased);
}

#[test]
fn deposits_mint_shares_in_proportion() {
    let mut game = setup_game();
    let a = game.get_user_id(ALICE).unwrap();
    let b = game.get_user_id(BOB).unwrap();
    let pair = TradingPairID { asset_a: game.bitcoin_token_id, asset_b: game.real_sats_token_id };
    game.deposit(pair, 100, 300, a);
    let m = ConstantFunctionMarketMakerPair::ensure(&mut game.tokens, &mut game.swap, &mut game.alloc, pair);
    assert_eq!((m.reserve_a, m.reserve_b), (100, 300));
    // The first deposit gets as many shares as it adds of the first asset.
    assert_eq!(game.tokens.balance_check(m.lp, &a), 100);
    game.deposit(pair, 50, 150, b);
    assert_eq!(game.tokens.balance_check(m.lp, &b), 50);
    assert_eq!(game.tokens.total_coins(m.lp), 150);
    // Out of ratio: nothing happens.
    game.deposit(pair, 50, 100, b);
    assert_eq!(game.tokens.balance_check(m.lp, &b), 50);
    assert_eq!(game.tokens.balance_check(game.bitcoin_token_id, &b), 10_000_000 - 50);
}

#[test]
fn clock_is_the_median_of_the_players() {
    let mut game = setup_game();
    let a = game.get_user_id(ALICE).unwrap();
    let b = game.get_user_id(BOB).unwrap();
    game.update_current_time(a, 123);
    game.update_current_time(b, 455);
    assert_eq!(game.elapsed_time, 0);
    game.update_current_time(a, 3_000_000_000);
    assert_eq!(game.elapsed_time, 1_499_999_938);
    // An earlier report moves nothing back.
    game.update_current_time(a, 200);
    assert_eq!(game.elapsed_time, 1_499_999_938);
}
