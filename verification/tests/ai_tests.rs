use rustchess::ai::AiPlayer;
use rustchess::board::{parse, Board, Color, Piece};
use rustchess::evaluate::{BasicEvaluator, Evaluator};
use rustchess::move_generator::{generate_moves, AttackTables, Case, Flags, GenMove};
use rustchess::player::{Player, SeqPlayer};
use rand::rngs::SmallRng;
use rand::SeedableRng;

const SEED: [u8; 16] = [42, 0, 0, 0, 0, 0, 0, 0, 0, 0, 0, 0, 0, 0, 0, 0];

fn sq(name: &str) -> Case {
    Case::parse(&mut name.chars()).unwrap()
}

struct CountingEvaluator;

impl Evaluator for CountingEvaluator {
    fn score(&self, b: Board, player: Color) -> i32 {
        b.color(player).all().count_ones() as i32
    }

    fn evaluate(&self, b: &Board, player: Color) -> i32 {
        self.score(*b, player)
    }
}

#[test]
fn material_of_start_position_is_balanced() {
    let b = Board::new_start();
    assert_eq!(0, BasicEvaluator.evaluate(&b, Color::White));
    assert_eq!(0, BasicEvaluator.evaluate(&b, Color::Black));
}

#[test]
fn material_weights() {
    let one = |p: Piece| {
        let mut b = Board::empty();
        *b.get_pc_board_mut(p, Color::White) |= 1;
        BasicEvaluator.evaluate(&b, Color::White)
    };
    assert_eq!(10, one(Piece::Pawn));
    assert_eq!(30, one(Piece::Knight));
    assert_eq!(30, one(Piece::Bishop));
    assert_eq!(50, one(Piece::Rook));
    assert_eq!(90, one(Piece::Queen));
    assert_eq!(900, one(Piece::King));
    let b = parse("k_______\n________\n________\n________\n________\n________\nPP______\nRQ__K___").unwrap();
    assert_eq!(2 * 10 + 50 + 90 + 900 - 900, BasicEvaluator.evaluate(&b, Color::White));
    assert_eq!(-160, BasicEvaluator.evaluate(&b, Color::Black));
    let mut full = Board::empty();
    full.white.pawns = u64::MAX;
    assert_eq!(640, BasicEvaluator.evaluate(&full, Color::White));
    assert_eq!(-640, BasicEvaluator.evaluate(&full, Color::Black));
}

#[test]
fn search_at_depth_zero_evaluates() {
    let ai = AiPlayer::new(SEED);
    let b = parse("k_______\n________\n________\n________\n________\n________\nP_______\n____K___").unwrap();
    assert_eq!(10, ai.search(0, Color::White, &b, true));
    assert_eq!(-10, ai.search(0, Color::Black, &b, false));
}

#[test]
fn search_without_moves_gives_the_sentinel() {
    let ai = AiPlayer::new(SEED);
    let b = Board::empty();
    assert_eq!(-9999, ai.search(1, Color::White, &b, true));
    assert_eq!(9999, ai.search(1, Color::White, &b, false));
    assert_eq!(9999, ai.search(3, Color::Black, &b, false));
    assert_eq!(0, ai.search(0, Color::Black, &b, false));
}

#[test]
fn search_one_ply_takes_the_best_capture() {
    let ai = AiPlayer::new(SEED);
    // a white rook that can take a queen or a pawn
    let b = parse("________\n________\n________\nq_______\n________\n________\n________\nR__p____").unwrap();
    // the boards behind White's moves are scored for Black: 50 where the
    // rook takes nothing, 40 where it takes the pawn, -40 where it takes the queen
    assert_eq!(50, ai.search(1, Color::White, &b, true));
    assert_eq!(-40, ai.search(1, Color::White, &b, false));
}

#[test]
fn best_move_is_none_without_moves() {
    let ai = AiPlayer::new(SEED);
    assert_eq!(None, ai.best_move(Color::White, &Board::empty()));
    // a king alone gets no move from the generator
    let b = parse("____k___\n\n").unwrap();
    assert_eq!(None, ai.best_move(Color::Black, &b));
}

#[test]
fn best_move_takes_the_hanging_queen() {
    let mut ai = AiPlayer::new(SEED);
    // Black's knight and pawn keep Black in moves; its queen gets none
    let b = parse("_______n\n_______p\n________\nq_______\n________\n________\n________\nR_______").unwrap();
    let m = ai.get_move(Color::White, &b);
    // a2, a3, a4 and the capture all win the queen; the capture is the last of them
    assert_eq!(GenMove::new(sq("a1"), sq("a5"), Flags::capture()), m);
}

#[test]
fn side_without_moves_is_worth_the_sentinel() {
    let mut ai = AiPlayer::new(SEED);
    // Black's queen gets no move, so every board behind a move of White is
    // worth 9999: the last move generated is chosen
    let b = parse("________\n________\n________\nq_______\n________\n________\n________\nR_______").unwrap();
    let m = ai.get_move(Color::White, &b);
    assert_eq!(GenMove::new(sq("a1"), sq("h1"), Flags::none()), m);
}

#[test]
fn best_move_is_the_last_of_the_best() {
    let ai = AiPlayer::new(SEED);
    // a lone knight: every move scores alike, so the last generated is chosen
    let b = parse("________\n________\n________\n________\n___N____\n________\n________\n________").unwrap();
    let moves = generate_moves(&AttackTables::new(), &b, Color::White);
    assert_eq!(8, moves.len());
    assert_eq!(Some(moves[7]), ai.best_move(Color::White, &b));
}

#[test]
fn search_is_deterministic() {
    let b = Board::new_start();
    let mut first = AiPlayer::new(SEED);
    let mut second = AiPlayer::new([7; 16]);
    let a = first.get_move(Color::White, &b);
    assert_eq!(a, first.get_move(Color::White, &b));
    assert_eq!(a, second.get_move(Color::White, &b));
    assert_eq!(Some(a), first.best_move(Color::White, &b));
    let moves = generate_moves(&AttackTables::new(), &b, Color::White);
    assert!(moves.contains(&a));
}

#[test]
fn other_evaluators_fit() {
    let mut ai = AiPlayer::with_evaluator(SEED, CountingEvaluator);
    let b = parse("_______n\n_______p\n________\nq_______\n________\n________\n________\nR_______").unwrap();
    assert_eq!(1, ai.search(0, Color::White, &b, true));
    assert_eq!(3, ai.search(0, Color::Black, &b, true));
    // the rook survives behind every move, so all score alike
    let moves = generate_moves(&AttackTables::new(), &b, Color::White);
    let m = ai.get_move(Color::White, &b);
    assert_eq!(moves[moves.len() - 1], m);
}

#[test]
fn seq_player_follows_its_script() {
    let mut p = SeqPlayer {};
    let b = Board::new_start();
    assert_eq!(
        GenMove::new(Case::new(1, 0), Case::new(2, 2), Flags::none()),
        p.get_move(Color::White, &b)
    );
    assert_eq!(
        GenMove::new(Case::new(1, 7), Case::new(2, 5), Flags::none()),
        p.get_move(Color::Black, &b)
    );
    let mut with_c3 = b.clone();
    with_c3.white.knights |= sq("c3").board();
    assert_eq!(
        GenMove::new(Case::new(2, 2), Case::new(1, 0), Flags::none()),
        p.get_move(Color::White, &with_c3)
    );
    let mut without_b8 = b.clone();
    without_b8.black.knights = 0;
    assert_eq!(
        GenMove::new(Case::new(2, 5), Case::new(1, 7), Flags::none()),
        p.get_move(Color::Black, &without_b8)
    );
}

#[test]
fn player_made_of_a_generator_searches_alike() {
    let b = Board::new_start();
    let by_seed = AiPlayer::new(SEED);
    let by_generator = AiPlayer::with_generator(SmallRng::from_seed([9; 16]), BasicEvaluator);
    assert_eq!(
        by_seed.best_move(Color::Black, &b),
        by_generator.best_move(Color::Black, &b)
    );
    assert_eq!(
        by_seed.search(2, Color::White, &b, true),
        by_generator.search(2, Color::White, &b, true)
    );
}
