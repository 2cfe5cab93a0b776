use klavier_core::bar::{Bar, Repeat, RepeatSet, VarIndex};
use klavier_core::global_repeat::{GlobalRepeat, GlobalRepeatBuilder};
use klavier_core::play_iter::PlayIter;
use klavier_core::play_start_tick::{PlayStartTick, ToAccumTickError};
use klavier_core::repeat::{render_region, AccumTick, Chunk, Region, RenderPhase, RenderRegionError, SequenceRegion};
use klavier_core::rhythm::Rhythm;

fn repeat_set(rs: &[Repeat]) -> RepeatSet {
    let mut set = RepeatSet::EMPTY();
    for r in rs.iter().rev() {
        set = set.try_add(*r).unwrap();
    }
    set
}

fn to_accum_tick(tick: u32, iter: u8, chunks: &[(AccumTick, Chunk)]) -> Result<AccumTick, ToAccumTickError> {
    PlayStartTick::new(tick, iter).to_accum_tick(chunks)
}

#[test]
fn empty() {
    let bars: Vec<Bar> = vec![];
    let (region, _warnings) = render_region(Rhythm::new(4, 4), &bars).unwrap();
    let chunks = region.to_chunks();
    assert_eq!(chunks.len(), 1);
    assert_eq!(chunks[0], Chunk::new(0, u32::MAX));

    let by_accum_tick = Chunk::by_accum_tick(&chunks);
    assert_eq!(to_accum_tick(0, 1, &by_accum_tick).unwrap(), 0);
    assert_eq!(to_accum_tick(100, 1, &by_accum_tick).unwrap(), 100);
    assert_eq!(to_accum_tick(100, 2, &by_accum_tick), Err(ToAccumTickError::CannotFind { specified_iter: PlayIter::new(2), max_iter: 1 }));
}

// 0    100
//   A  |
#[test]
fn single_bar() {
    let bar = Bar::new(100, None, None, repeat_set(&[]));
    let bars = vec![bar];
    let (region, _warnings) = render_region(Rhythm::new(4, 4), &bars).unwrap();
    let chunks = region.to_chunks();
    assert_eq!(chunks.len(), 1);
    assert_eq!(chunks[0], Chunk::new(0, u32::MAX));

    let by_accum_tick = Chunk::by_accum_tick(&chunks);
    assert_eq!(to_accum_tick(0, 1, &by_accum_tick).unwrap(), 0);
    assert_eq!(to_accum_tick(100, 1, &by_accum_tick).unwrap(), 100);
    assert_eq!(to_accum_tick(100, 2, &by_accum_tick), Err(ToAccumTickError::CannotFind { specified_iter: PlayIter::new(2), max_iter: 1 }));
}

// 0    100
//   A  :|  B
//
// 0    100   200
//   A  |  A  |  B
#[test]
fn default_start_repeat() {
    let bars = vec![
        Bar::new(100, None, None, repeat_set(&[Repeat::End]))
    ];
    let (region, _warnings) = render_region(Rhythm::new(4, 4), &bars).unwrap();
    let chunks = region.to_chunks();
    assert_eq!(chunks.len(), 3);
    assert_eq!(chunks[0], Chunk::new(0, 100));
    assert_eq!(chunks[1], Chunk::new(0, 100));
    assert_eq!(chunks[2], Chunk::new(100, u32::MAX));

    let chunks = Chunk::optimize(&chunks);
    assert_eq!(chunks.len(), 2);
    assert_eq!(chunks[0], Chunk::new(0, 100));
    assert_eq!(chunks[1], Chunk::new(0, u32::MAX));

    let by_accum_tick = Chunk::by_accum_tick(&chunks);
    assert_eq!(to_accum_tick(0, 1, &by_accum_tick).unwrap(), 0);
    assert_eq!(to_accum_tick(50, 1, &by_accum_tick).unwrap(), 50);
    assert_eq!(to_accum_tick(0, 2, &by_accum_tick).unwrap(), 100);
    assert_eq!(to_accum_tick(50, 2, &by_accum_tick).unwrap(), 150);
    assert_eq!(to_accum_tick(100, 1, &by_accum_tick).unwrap(), 200);
    assert_eq!(to_accum_tick(150, 1, &by_accum_tick).unwrap(), 250);
    assert_eq!(to_accum_tick(100, 2, &by_accum_tick), Err(ToAccumTickError::CannotFind { specified_iter: PlayIter::new(2), max_iter: 1 }));
}

// 0    100   200
//   A  :|  B  :|
//
// Repeat end at 200 is invalid.
#[test]
fn invalid_repeat_end() {
    let bars = vec![
        Bar::new(100, None, None, repeat_set(&[Repeat::End])),
        Bar::new(200, None, None, repeat_set(&[Repeat::End])),
    ];

    let e =  render_region(Rhythm::new(4, 4), &bars).unwrap_err();
    let err: &RenderRegionError = &e;
    assert_eq!(*err, RenderRegionError::OrphanRepeatEnd { tick: 200 });
}

// 0    100     200
//   A  |:  B  :|  C
//
// 0    100   200   300
//   A  |  B  |  B  |  C
#[test]
fn single_repeat() {
    let bars = vec![
        Bar::new(100, None, None, repeat_set(&[Repeat::Start])),
        Bar::new(200, None, None, repeat_set(&[Repeat::End])),
    ];

    let (region, _warnings) = render_region(Rhythm::new(4, 4), &bars).unwrap();
    let chunks = region.to_chunks();
    assert_eq!(chunks.len(), 4);
    assert_eq!(chunks[0], Chunk::new(0, 100));
    assert_eq!(chunks[1], Chunk::new(100, 200));
    assert_eq!(chunks[2], Chunk::new(100, 200));
    assert_eq!(chunks[3], Chunk::new(200, u32::MAX));

    let chunks = Chunk::optimize(&chunks);
    assert_eq!(chunks.len(), 2);
    assert_eq!(chunks[0], Chunk::new(0, 200));
    assert_eq!(chunks[1], Chunk::new(100, u32::MAX));

    let by_accum_tick = Chunk::by_accum_tick(&chunks);
    assert_eq!(to_accum_tick(0, 1, &by_accum_tick).unwrap(), 0);
    assert_eq!(to_accum_tick(0, 2, &by_accum_tick), Err(ToAccumTickError::CannotFind { specified_iter: PlayIter::new(2), max_iter: 1 }));
    assert_eq!(to_accum_tick(50, 2, &by_accum_tick), Err(ToAccumTickError::CannotFind { specified_iter: PlayIter::new(2), max_iter: 1 }));
    assert_eq!(to_accum_tick(100, 1, &by_accum_tick).unwrap(), 100);
    assert_eq!(to_accum_tick(150, 1, &by_accum_tick).unwrap(), 150);
    assert_eq!(to_accum_tick(100, 2, &by_accum_tick).unwrap(), 200);
    assert_eq!(to_accum_tick(150, 2, &by_accum_tick).unwrap(), 250);
    assert_eq!(to_accum_tick(200, 1, &by_accum_tick).unwrap(), 300);
    assert_eq!(to_accum_tick(250, 1, &by_accum_tick).unwrap(), 350);
    assert_eq!(to_accum_tick(200, 2, &by_accum_tick), Err(ToAccumTickError::CannotFind { specified_iter: PlayIter::new(2), max_iter: 1 }));
    assert_eq!(to_accum_tick(250, 2, &by_accum_tick), Err(ToAccumTickError::CannotFind { specified_iter: PlayIter::new(2), max_iter: 1 }));
}

// 0    50          200
//   A  |:    B    :|  C
//
// 0    50          200         350
//   A  |     B     |     B     |  C
#[test]
fn single_repeat2() {
    let bars = vec![
        Bar::new(50, None, None, repeat_set(&[Repeat::Start])),
        Bar::new(200, None, None, repeat_set(&[Repeat::End])),
    ];

    let (region, _warnings) = render_region(Rhythm::new(4, 4), &bars).unwrap();
    let chunks = region.to_chunks();
    assert_eq!(chunks.len(), 4);
    assert_eq!(chunks[0], Chunk::new(0, 50));
    assert_eq!(chunks[1], Chunk::new(50, 200));
    assert_eq!(chunks[2], Chunk::new(50, 200));
    assert_eq!(chunks[3], Chunk::new(200, u32::MAX));

    let chunks = Chunk::optimize(&chunks);
    assert_eq!(chunks.len(), 2);
    assert_eq!(chunks[0], Chunk::new(0, 200));
    assert_eq!(chunks[1], Chunk::new(50, u32::MAX));

    let by_accum_tick = Chunk::by_accum_tick(&chunks);
    assert_eq!(to_accum_tick(0, 1, &by_accum_tick).unwrap(), 0);
    assert_eq!(to_accum_tick(50, 1, &by_accum_tick).unwrap(), 50);
    assert_eq!(to_accum_tick(50, 2, &by_accum_tick).unwrap(), 200);
    assert_eq!(to_accum_tick(199, 2, &by_accum_tick).unwrap(), 349);
    assert_eq!(to_accum_tick(200, 1, &by_accum_tick).unwrap(), 350);
    assert_eq!(to_accum_tick(200, 2, &by_accum_tick), Err(ToAccumTickError::CannotFind { specified_iter: PlayIter::new(2), max_iter: 1 }));
}

// 0     50       100       150
//   A   |[1]  B   |[2]  C   |    D
//
// 0     50       100      150    200
//   A   |     B   |   A    |   C  |  D
#[test]
fn simple_variation() {
    let bars = vec![
        Bar::new(50, None, None, repeat_set(&[Repeat::Var1])),
        Bar::new(100, None, None, repeat_set(&[Repeat::Var2])),
        Bar::new(150, None, None, repeat_set(&[])),
    ];

    let (region, _warnings) = render_region(Rhythm::new(4, 4), &bars).unwrap();
    let chunks = region.to_chunks();
    assert_eq!(chunks.len(), 5);
    assert_eq!(chunks[0], Chunk::new(0, 50));
    assert_eq!(chunks[1], Chunk::new(50, 100));
    assert_eq!(chunks[2], Chunk::new(0, 50));
    assert_eq!(chunks[3], Chunk::new(100, 150));
    assert_eq!(chunks[4], Chunk::new(150, u32::MAX));

    let chunks = Chunk::optimize(&chunks);
    assert_eq!(chunks.len(), 3);
    assert_eq!(chunks[0], Chunk::new(0, 100));
    assert_eq!(chunks[1], Chunk::new(0, 50));
    assert_eq!(chunks[2], Chunk::new(100, u32::MAX));

    let by_accum_tick = Chunk::by_accum_tick(&chunks);
    assert_eq!(to_accum_tick(0, 1, &by_accum_tick).unwrap(), 0);
    assert_eq!(to_accum_tick(0, 2, &by_accum_tick).unwrap(), 100);
    assert_eq!(to_accum_tick(20, 2, &by_accum_tick).unwrap(), 120);
    assert_eq!(to_accum_tick(100, 1, &by_accum_tick).unwrap(), 150);
    assert_eq!(to_accum_tick(100, 2, &by_accum_tick), Err(ToAccumTickError::CannotFind { specified_iter: PlayIter::new(2), max_iter: 1 }));
}

// 0    100        200        350       500        650
//   A   |[1]  B   |[1]   C   |[2]  D   |[2]   E   |    F
//
// 0    100        200        350    450      600     750
//   A   |     B   |      C   |   A  |    D   |   E   |   F
#[test]
fn simple_variation2() {
    let bars = vec![
        Bar::new(100, None, None, repeat_set(&[Repeat::Var1])),
        Bar::new(200, None, None, repeat_set(&[Repeat::Var1])),
        Bar::new(350, None, None, repeat_set(&[Repeat::Var2])),
        Bar::new(500, None, None, repeat_set(&[Repeat::Var2])),
        Bar::new(650, None, None, repeat_set(&[])),
    ];

    let (region, _warnings) = render_region(Rhythm::new(4, 4), &bars).unwrap();
    let chunks = region.to_chunks();
    assert_eq!(chunks.len(), 5);
    assert_eq!(chunks[0], Chunk::new(0, 100));
    assert_eq!(chunks[1], Chunk::new(100, 350));
    assert_eq!(chunks[2], Chunk::new(0, 100));
    assert_eq!(chunks[3], Chunk::new(350, 650));
    assert_eq!(chunks[4], Chunk::new(650, u32::MAX));

    let chunks = Chunk::optimize(&chunks);
    assert_eq!(chunks.len(), 3);
    assert_eq!(chunks[0], Chunk::new(0, 350));
    assert_eq!(chunks[1], Chunk::new(0, 100));
    assert_eq!(chunks[2], Chunk::new(350, u32::MAX));

    let by_accum_tick = Chunk::by_accum_tick(&chunks);
    assert_eq!(to_accum_tick(0, 1, &by_accum_tick).unwrap(), 0);
    assert_eq!(to_accum_tick(200, 1, &by_accum_tick).unwrap(), 200);
    assert_eq!(to_accum_tick(0, 2, &by_accum_tick).unwrap(), 350);
    assert_eq!(to_accum_tick(350, 1, &by_accum_tick).unwrap(), 450);
    assert_eq!(to_accum_tick(650, 1, &by_accum_tick).unwrap(), 750);
    assert_eq!(to_accum_tick(650, 2, &by_accum_tick), Err(ToAccumTickError::CannotFind { specified_iter: PlayIter::new(2), max_iter: 1 }));
    assert_eq!(to_accum_tick(0, 3, &by_accum_tick), Err(ToAccumTickError::CannotFind { specified_iter: PlayIter::new(3), max_iter: 2 }));
}

// Non auftakt.
// 0    480         960        1440
//   A   |Fine  B   |     C    |DC
//
// 0    480         960        1440   1920
//   A   |     B    |      C   |   A  |
#[test]
fn simple_dc() {
    let bars = vec![
        Bar::new(480, None, None, repeat_set(&[Repeat::Fine])),
        Bar::new(960, None, None, repeat_set(&[])),
        Bar::new(1440, None, None, repeat_set(&[Repeat::Dc])),
    ];

    let (region, _warnings) = render_region(Rhythm::new(2, 4), &bars).unwrap();
    let chunks = region.to_chunks();
    assert_eq!(chunks.len(), 2);
    assert_eq!(chunks[0], Chunk::new(0, 1440));
    assert_eq!(chunks[1], Chunk::new(0, 480));

    let chunks = Chunk::optimize(&chunks);
    assert_eq!(chunks.len(), 2);
    assert_eq!(chunks[0], Chunk::new(0, 1440));
    assert_eq!(chunks[1], Chunk::new(0, 480));

    let by_accum_tick = Chunk::by_accum_tick(&chunks);
    assert_eq!(to_accum_tick(0, 1, &by_accum_tick).unwrap(), 0);
    assert_eq!(to_accum_tick(0, 2, &by_accum_tick).unwrap(), 1440);
    assert_eq!(to_accum_tick(0, 3, &by_accum_tick), Err(ToAccumTickError::CannotFind { specified_iter: PlayIter::new(3), max_iter: 2 }));
}

// Non auftakt.
// 0    480         580       730        880       1030      1180    1280
//   A   |[1]  B   |[1]   C   |[2]   D   |[2]   E   |Fine F   |   G   |DC
//
//   A   |     B    |     C   |   A  |   D   |   E   |   F   |   G   |  A  |   D   |   E   |
// 0 480    530        600   1080 
// A |: B :|:[Fine] C :|: D :|[D.C.]
//
// A B B C C D D A B
#[test]
fn dc_and_repeat_end() {
    let bars = vec![
        Bar::new(480, None, None, repeat_set(&[Repeat::Start])),
        Bar::new(530, None, None, repeat_set(&[Repeat::Start, Repeat::End, Repeat::Fine])),
        Bar::new(600, None, None, repeat_set(&[Repeat::Start, Repeat::End])),
        Bar::new(1080, None, None, repeat_set(&[Repeat::Dc, Repeat::End])),
    ];

    let (region, _warnings) = render_region(Rhythm::new(2, 4), &bars).unwrap();
    let chunks = region.to_chunks();

    assert_eq!(chunks.len(), 9);
    assert_eq!(chunks[0], Chunk::new(0, 480));
    assert_eq!(chunks[1], Chunk::new(480, 530));
    assert_eq!(chunks[2], Chunk::new(480, 530));
    assert_eq!(chunks[3], Chunk::new(530, 600));
    assert_eq!(chunks[4], Chunk::new(530, 600));
    assert_eq!(chunks[5], Chunk::new(600, 1080));
    assert_eq!(chunks[6], Chunk::new(600, 1080));
    assert_eq!(chunks[7], Chunk::new(0, 480));
    assert_eq!(chunks[8], Chunk::new(480, 530));

    let chunks = Chunk::optimize(&chunks);
    assert_eq!(chunks.len(), 5);
    assert_eq!(chunks[0], Chunk::new(0, 530));
    assert_eq!(chunks[1], Chunk::new(480, 600));
    assert_eq!(chunks[2], Chunk::new(530, 1080));
    assert_eq!(chunks[3], Chunk::new(600, 1080));
    assert_eq!(chunks[4], Chunk::new(0, 530));
}

// 0 50   100 150  200  250  300 350  400 450
// A |: B | C |1 D |2 E |: F | G |1 H |2 I| J
//
// 0 50  100 150 200 250 300 350 400 450 500 550 600 650
// A | B | C | D | B | C | E | F | G | H | F | G | I | J
#[test]
fn two_vars() {
    let bars = vec![
        Bar::new(50, None, None, repeat_set(&[Repeat::Start])),
        Bar::new(100, None, None, repeat_set(&[])),
        Bar::new(150, None, None, repeat_set(&[Repeat::Var1])),
        Bar::new(200, None, None, repeat_set(&[Repeat::Var2])),
        Bar::new(250, None, None, repeat_set(&[Repeat::Start])),
        Bar::new(300, None, None, repeat_set(&[])),
        Bar::new(350, None, None, repeat_set(&[Repeat::Var1])),
        Bar::new(400, None, None, repeat_set(&[Repeat::Var2])),
        Bar::new(450, None, None, repeat_set(&[])),
    ];

    let (region, _warnings) = render_region(Rhythm::new(2, 4), &bars).unwrap();
    let chunks = region.to_chunks();

    assert_eq!(chunks.len(), 10);
    assert_eq!(chunks[0], Chunk::new(0, 50));
    assert_eq!(chunks[1], Chunk::new(50, 150));
    assert_eq!(chunks[2], Chunk::new(150, 200));
    assert_eq!(chunks[3], Chunk::new(50, 150));
    assert_eq!(chunks[4], Chunk::new(200, 250));
    assert_eq!(chunks[5], Chunk::new(250, 350));
    assert_eq!(chunks[6], Chunk::new(350, 400));
    assert_eq!(chunks[7], Chunk::new(250, 350));
    assert_eq!(chunks[8], Chunk::new(400, 450));
    assert_eq!(chunks[9], Chunk::new(450, u32::MAX));

    let chunks = Chunk::optimize(&chunks);
    assert_eq!(chunks.len(), 5);
    assert_eq!(chunks[0], Chunk::new(0, 200));
    assert_eq!(chunks[1], Chunk::new(50, 150));
    assert_eq!(chunks[2], Chunk::new(200, 400));
    assert_eq!(chunks[3], Chunk::new(250, 350));
    assert_eq!(chunks[4], Chunk::new(400, u32::MAX));
}

// 0 50   100 150  200  250  300  350  400 450 500 550 600
// A |: B | C |1 D |2 E |  F |: G | H  |1 I|1 J |2 K| L |
//
// 0 50  100 150 200 250 300 350 400 450 500 550 600 650 700 750
// A | B | C | D | B | C | E | F | G | H | I | J | G | H | K | L
#[test]
fn two_vars_with_end_bar() {
    let bars = vec![
        Bar::new(50, None, None, repeat_set(&[Repeat::Start])),
        Bar::new(100, None, None, repeat_set(&[])),
        Bar::new(150, None, None, repeat_set(&[Repeat::Var1])),
        Bar::new(200, None, None, repeat_set(&[Repeat::Var2])),
        Bar::new(250, None, None, repeat_set(&[])),
        Bar::new(300, None, None, repeat_set(&[Repeat::Start])),
        Bar::new(350, None, None, repeat_set(&[])),
        Bar::new(400, None, None, repeat_set(&[Repeat::Var1])),
        Bar::new(450, None, None, repeat_set(&[Repeat::Var1])),
        Bar::new(500, None, None, repeat_set(&[Repeat::Var2])),
        Bar::new(550, None, None, repeat_set(&[])),
        Bar::new(600, None, None, repeat_set(&[])),
    ];

    let (region, _warnings) = render_region(Rhythm::new(2, 4), &bars).unwrap();
    let chunks = region.to_chunks();

    assert_eq!(chunks.len(), 11);
    assert_eq!(chunks[0], Chunk::new(0, 50));
    assert_eq!(chunks[1], Chunk::new(50, 150));
    assert_eq!(chunks[2], Chunk::new(150, 200));
    assert_eq!(chunks[3], Chunk::new(50, 150));
    assert_eq!(chunks[4], Chunk::new(200, 250));
    assert_eq!(chunks[5], Chunk::new(250, 300));
    assert_eq!(chunks[6], Chunk::new(300, 400));
    assert_eq!(chunks[7], Chunk::new(400, 500));
    assert_eq!(chunks[8], Chunk::new(300, 400));
    assert_eq!(chunks[9], Chunk::new(500, 550));
    assert_eq!(chunks[10], Chunk::new(550, u32::MAX));

    let chunks = Chunk::optimize(&chunks);
    assert_eq!(chunks.len(), 5);
    assert_eq!(chunks[0], Chunk::new(0, 200));
    assert_eq!(chunks[1], Chunk::new(50, 150));
    assert_eq!(chunks[2], Chunk::new(200, 500));
    assert_eq!(chunks[3], Chunk::new(300, 400));
    assert_eq!(chunks[4], Chunk::new(500, u32::MAX));

}

// 0 240  320 370  420  470  520  570  620 670     720 770 820  870 920 970
// A |: B | C |1 D |2 E |  F |: G | H  |1 I|2 J Fine| K |: L| M | N :| O |DC
//
// A | B | C | D | B | C | E | F | G | H | I | G | H | J | K | L | M | N | L | M 
// |  N | O  | B  | C  | E  | F  | G  | H  | J  |
// 0    50          200      300
//   A  |     B    :|:  C    :|
//
// 0    50          200  250         400    500   600
//   A  |     B     |  A  |     B     |  C   |  C  |
#[test]
fn consecutive_repeat() {
    let bars = vec![
        Bar::new(50, None, None, repeat_set(&[])),
        Bar::new(200, None, None, repeat_set(&[Repeat::Start, Repeat::End])),
        Bar::new(300, None, None, repeat_set(&[Repeat::End])),
    ];

    let (region, _warnings) = render_region(Rhythm::new(2, 4), &bars).unwrap();
    let chunks = region.to_chunks();
    assert_eq!(chunks.len(), 5);

    let mut z = chunks.iter();
    assert_eq!(*z.next().unwrap(), Chunk::new(0, 200));
    assert_eq!(*z.next().unwrap(), Chunk::new(0, 200));
    assert_eq!(*z.next().unwrap(), Chunk::new(200, 300));
    assert_eq!(*z.next().unwrap(), Chunk::new(200, 300));
    assert_eq!(*z.next().unwrap(), Chunk::new(300, u32::MAX));
    assert_eq!(z.next(), None);

    let chunks = Chunk::optimize(&chunks);
    let mut z = chunks.iter();
    assert_eq!(*z.next().unwrap(), Chunk::new(0, 200));
    assert_eq!(*z.next().unwrap(), Chunk::new(0, 300));
    assert_eq!(*z.next().unwrap(), Chunk::new(200, u32::MAX));
    assert_eq!(z.next(), None);
}

// 0   120          270          370
//   A  |     B    :|:Fine  C    :| D.C
//
//   A  |     B     |  A  |     B     |  C   |  C  |   A  |  B  |
// 0 120   170       270   370
// A |: B :|:Fine C :|: D :|D.C.
// 
// A  B  B   C   C   D   D   A   B 
// 0 120 170  270  370    470
// A | B |: C | D :|D.C. E |
// 
// A B C D C D A B C D E
// 0   120   200         270          370
//   A  |  B  |Segno C   :|:Fine  D    :| D.S
//
//   A  |     B     |  C  |     A     |  B   |  C  |   D  |  D  | A | B |
#[test]
fn simple_ds() {
    let bars = vec![
        Bar::new(120, None, None, repeat_set(&[])),
        Bar::new(200, None, None, repeat_set(&[Repeat::Segno])),
        Bar::new(270, None, None, repeat_set(&[Repeat::Start, Repeat::End, Repeat::Fine])),
        Bar::new(370, None, None, repeat_set(&[Repeat::Ds, Repeat::End])),
    ];

    let (region, _warnings) = render_region(Rhythm::new(1, 4), &bars).unwrap();
    let chunks = region.to_chunks();
    assert_eq!(chunks.len(), 5);

    let mut z = chunks.iter();
    assert_eq!(*z.next().unwrap(), Chunk::new(0, 270));
    assert_eq!(*z.next().unwrap(), Chunk::new(0, 270));
    assert_eq!(*z.next().unwrap(), Chunk::new(270, 370));
    assert_eq!(*z.next().unwrap(), Chunk::new(270, 370));
    assert_eq!(*z.next().unwrap(), Chunk::new(200, 270));
    assert_eq!(z.next(), None);

    let chunks = Chunk::optimize(&chunks);
    let mut z = chunks.iter();
    assert_eq!(*z.next().unwrap(), Chunk::new(0, 270));
    assert_eq!(*z.next().unwrap(), Chunk::new(0, 370));
    assert_eq!(*z.next().unwrap(), Chunk::new(270, 370));
    assert_eq!(*z.next().unwrap(), Chunk::new(200, 270));
    assert_eq!(z.next(), None);
}

// 0   120   200         270          370    470     570
//   A  |  B  |Segno C   :|:Fine  D    |[1] E |[2] F  |D.S
//
//   A  |  B  |  C  |  A  |  B  |  C  |   D  |  E  | D | F | C
#[test]
fn var_and_ds() {
    let bars = vec![
        Bar::new(120, None, None, repeat_set(&[])),
        Bar::new(200, None, None, repeat_set(&[Repeat::Segno])),
        Bar::new(270, None, None, repeat_set(&[Repeat::Start, Repeat::End, Repeat::Fine])),
        Bar::new(370, None, None, repeat_set(&[Repeat::Var1])),
        Bar::new(470, None, None, repeat_set(&[Repeat::Var2])),
        Bar::new(570, None, None, repeat_set(&[Repeat::Ds])),
    ];

    let (region, _warnings) = render_region(Rhythm::new(1, 4), &bars).unwrap();
    let chunks = region.to_chunks();
    assert_eq!(chunks.len(), 7);

    let mut z = chunks.iter();
    assert_eq!(*z.next().unwrap(), Chunk::new(0, 270));
    assert_eq!(*z.next().unwrap(), Chunk::new(0, 270));
    assert_eq!(*z.next().unwrap(), Chunk::new(270, 370));
    assert_eq!(*z.next().unwrap(), Chunk::new(370, 470));
    assert_eq!(*z.next().unwrap(), Chunk::new(270, 370));
    assert_eq!(*z.next().unwrap(), Chunk::new(470, 570));
    assert_eq!(*z.next().unwrap(), Chunk::new(200, 270));
    assert_eq!(z.next(), None);

    let chunks = Chunk::optimize(&chunks);
    let mut z = chunks.iter();
    assert_eq!(*z.next().unwrap(), Chunk::new(0, 270));
    assert_eq!(*z.next().unwrap(), Chunk::new(0, 470));
    assert_eq!(*z.next().unwrap(), Chunk::new(270, 370));
    assert_eq!(*z.next().unwrap(), Chunk::new(470, 570));
    assert_eq!(*z.next().unwrap(), Chunk::new(200, 270));
    assert_eq!(z.next(), None);
}    

// 0   120   200         270  370     470  570     670
//   A  |  B  |Segno C   :| D |Coda E | F |Coda G  | D.S
//
//   A  |  B  |  C  |  A  |  B  |  C  |  D | E | F | G | C | D | G
#[test]
fn ds_and_coda() {
    let bars = vec![
        Bar::new(120, None, None, repeat_set(&[])),
        Bar::new(200, None, None, repeat_set(&[Repeat::Segno])),
        Bar::new(270, None, None, repeat_set(&[Repeat::End])),
        Bar::new(370, None, None, repeat_set(&[Repeat::Coda])),
        Bar::new(470, None, None, repeat_set(&[])),
        Bar::new(570, None, None, repeat_set(&[Repeat::Coda])),
        Bar::new(670, None, None, repeat_set(&[Repeat::Ds])),
    ];

    let (region, _warnings) = render_region(Rhythm::new(1, 4), &bars).unwrap();
    let chunks = region.to_chunks();
    assert_eq!(chunks.len(), 6);

    let mut z = chunks.iter();
    assert_eq!(*z.next().unwrap(), Chunk::new(0, 270));
    assert_eq!(*z.next().unwrap(), Chunk::new(0, 270));
    assert_eq!(*z.next().unwrap(), Chunk::new(270, 670));
    assert_eq!(*z.next().unwrap(), Chunk::new(200, 270));
    assert_eq!(*z.next().unwrap(), Chunk::new(270, 370));
    assert_eq!(*z.next().unwrap(), Chunk::new(570, u32::MAX));
    assert_eq!(z.next(), None);

    let chunks = Chunk::optimize(&chunks);
    let mut z = chunks.iter();
    assert_eq!(*z.next().unwrap(), Chunk::new(0, 270));
    assert_eq!(*z.next().unwrap(), Chunk::new(0, 670));
    assert_eq!(*z.next().unwrap(), Chunk::new(200, 370));
    assert_eq!(*z.next().unwrap(), Chunk::new(570, u32::MAX));
    assert_eq!(z.next(), None);
}    

// 0   120   200         270  370     470  570     670   770
//   A  |  B  |Segno C   :| D |Coda E | F |Coda G  |Fine |D.S
//
//   A  |  B  |  C  |  A  |  B  |  C  |  D | E | G 
#[test]
fn ds_and_coda_fine() {
    let bars = vec![
        Bar::new(120, None, None, repeat_set(&[])),
        Bar::new(200, None, None, repeat_set(&[Repeat::Segno])),
        Bar::new(270, None, None, repeat_set(&[Repeat::End])),
        Bar::new(370, None, None, repeat_set(&[Repeat::Coda])),
        Bar::new(470, None, None, repeat_set(&[])),
        Bar::new(570, None, None, repeat_set(&[Repeat::Coda])),
        Bar::new(670, None, None, repeat_set(&[Repeat::Fine])),
        Bar::new(770, None, None, repeat_set(&[Repeat::Ds])),
    ];

    let (region, _warnings) = render_region(Rhythm::new(1, 4), &bars).unwrap();
    let chunks = region.to_chunks();
    assert_eq!(chunks.len(), 6);

    let mut z = chunks.iter();
    assert_eq!(*z.next().unwrap(), Chunk::new(0, 270));
    assert_eq!(*z.next().unwrap(), Chunk::new(0, 270));
    assert_eq!(*z.next().unwrap(), Chunk::new(270, 770));
    assert_eq!(*z.next().unwrap(), Chunk::new(200, 270));
    assert_eq!(*z.next().unwrap(), Chunk::new(270, 370));
    assert_eq!(*z.next().unwrap(), Chunk::new(570, 670));
    assert_eq!(z.next(), None);

    let chunks = Chunk::optimize(&chunks);
    let mut z = chunks.iter();
    assert_eq!(*z.next().unwrap(), Chunk::new(0, 270));
    assert_eq!(*z.next().unwrap(), Chunk::new(0, 770));
    assert_eq!(*z.next().unwrap(), Chunk::new(200, 370));
    assert_eq!(*z.next().unwrap(), Chunk::new(570, 670));
    assert_eq!(z.next(), None);
}    

// 0   120   200         270  370     470 570  670
//   A  |  B  |Segno C   :| D |Coda E | F |D.S |Coda H
//
//   A  |  B  |  C  |  A  |  B  |  C  |  D | E | F | C | D | H
#[test]
fn ds_and_coda_skip_ds() {
    let bars = vec![
        Bar::new(120, None, None, repeat_set(&[])),
        Bar::new(200, None, None, repeat_set(&[Repeat::Segno])),
        Bar::new(270, None, None, repeat_set(&[Repeat::End])),
        Bar::new(370, None, None, repeat_set(&[Repeat::Coda])),
        Bar::new(470, None, None, repeat_set(&[])),
        Bar::new(570, None, None, repeat_set(&[Repeat::Ds])),
        Bar::new(670, None, None, repeat_set(&[Repeat::Coda])),
    ];

    let (region, _warnings) = render_region(Rhythm::new(1, 4), &bars).unwrap();
    let chunks = region.to_chunks();
    assert_eq!(chunks.len(), 6);

    let mut z = chunks.iter();
    assert_eq!(*z.next().unwrap(), Chunk::new(0, 270));
    assert_eq!(*z.next().unwrap(), Chunk::new(0, 270));
    assert_eq!(*z.next().unwrap(), Chunk::new(270, 570));
    assert_eq!(*z.next().unwrap(), Chunk::new(200, 270));
    assert_eq!(*z.next().unwrap(), Chunk::new(270, 370));
    assert_eq!(*z.next().unwrap(), Chunk::new(670, u32::MAX));
    assert_eq!(z.next(), None);

    let chunks = Chunk::optimize(&chunks);
    let mut z = chunks.iter();
    assert_eq!(*z.next().unwrap(), Chunk::new(0, 270));
    assert_eq!(*z.next().unwrap(), Chunk::new(0, 570));
    assert_eq!(*z.next().unwrap(), Chunk::new(200, 370));
    assert_eq!(*z.next().unwrap(), Chunk::new(670, u32::MAX));
    assert_eq!(z.next(), None);
}    

#[test]  
fn render_sequence_region_when_non_dcds() {
    let seq_region = SequenceRegion::new(100, 200);
    let chunks: Vec<Chunk> = seq_region.render_chunks(&RenderPhase::NonDcDs);
    assert_eq!(chunks.len(), 1);
    assert_eq!(chunks[0], Chunk::new(100, 200));
}

#[test]  
fn render_sequence_region_when_dcds_iter0() {
    let seq_region = SequenceRegion::new(100, 200);
    let chunks: Vec<Chunk> = seq_region.render_chunks(&RenderPhase::DcDsIter0 { dc_ds_tick: 99 });
    assert_eq!(chunks.len(), 0);

    let chunks: Vec<Chunk> = seq_region.render_chunks(&RenderPhase::DcDsIter0 { dc_ds_tick: 100 });
    assert_eq!(chunks.len(), 0);

    let chunks: Vec<Chunk> = seq_region.render_chunks(&RenderPhase::DcDsIter0 { dc_ds_tick: 101 });
    assert_eq!(chunks.len(), 1);
    assert_eq!(chunks[0], Chunk::new(100, 101));

    let chunks: Vec<Chunk> = seq_region.render_chunks(&RenderPhase::DcDsIter0 { dc_ds_tick: 199 });
    assert_eq!(chunks.len(), 1);
    assert_eq!(chunks[0], Chunk::new(100, 199));

    let chunks: Vec<Chunk> = seq_region.render_chunks(&RenderPhase::DcDsIter0 { dc_ds_tick: 200 });
    assert_eq!(chunks.len(), 1);
    assert_eq!(chunks[0], Chunk::new(100, 200));

    let chunks: Vec<Chunk> = seq_region.render_chunks(&RenderPhase::DcDsIter0 { dc_ds_tick: 201 });
    assert_eq!(chunks.len(), 1);
    assert_eq!(chunks[0], Chunk::new(100, 200));
}

#[test]  
fn render_sequence_region_when_dcds_iter1() -> Result<(), RenderRegionError> {
    let seq_region = SequenceRegion::new(100, 200);
    let (global_repeat, _warn) = GlobalRepeatBuilder::new(Rhythm::new(4, 4))
        .adding_segno(99)?
        .adding_dc(400, 100)?
        .adding_first_bar_len(30)?
        .build()?;
        
    let gr: GlobalRepeat = global_repeat.unwrap();
    let rp = RenderPhase::DcDsIter1 { dc_ds_tick: gr.ds_dc().tick(), global_repeat: &gr };
    let chunks = seq_region.render_chunks(&rp);

    assert_eq!(chunks.len(), 1);
    assert_eq!(chunks[0], Chunk::new(100, 200));
    Ok(())
}

//   200      400
// A | Fine B | D.C.
// This is assumed auftakt.
// A B
#[test]
fn dc_goes_to_fine() {
    let bars = vec![
        Bar::new(200, None, None, repeat_set(&[Repeat::Fine])),
        Bar::new(400, None, None, repeat_set(&[Repeat::Dc])),
    ];

    let (region, _warnings) = render_region(Rhythm::new(1, 4), &bars).unwrap();
    let chunks = region.to_chunks();
    assert_eq!(chunks.len(), 1);
}


// A full D.C. bar after an upbeat returns past the upbeat.
#[test]
fn full_dc_bar_after_upbeat_returns_past_it() {
    let bars = vec![
        Bar::new(120, None, None, repeat_set(&[])),
        Bar::new(360, None, None, repeat_set(&[Repeat::Fine])),
        Bar::new(600, None, None, repeat_set(&[Repeat::Dc])),
    ];
    let (region, warnings) = render_region(Rhythm::new(1, 4), &bars).unwrap();
    assert!(warnings.is_empty());
    assert_eq!(region.to_chunks(), vec![Chunk::new(0, 600), Chunk::new(120, 360)]);
}

// A D.C. bar that completes the upbeat to a full bar returns to the start.
#[test]
fn dc_completing_upbeat_returns_to_start() {
    let bars = vec![
        Bar::new(120, None, None, repeat_set(&[])),
        Bar::new(360, None, None, repeat_set(&[Repeat::Fine])),
        Bar::new(480, None, None, repeat_set(&[Repeat::Dc])),
    ];
    let (region, warnings) = render_region(Rhythm::new(1, 4), &bars).unwrap();
    assert!(warnings.is_empty());
    assert_eq!(region.to_chunks(), vec![Chunk::new(0, 480), Chunk::new(0, 360)]);
}

#[test]
fn errors_of_repeat_symbols() {
    let dup_start = vec![
        Bar::new(100, None, None, repeat_set(&[Repeat::Start])),
        Bar::new(200, None, None, repeat_set(&[Repeat::Start])),
    ];
    assert_eq!(render_region(Rhythm::new(4, 4), &dup_start).unwrap_err(), RenderRegionError::DuplicatedRepeatStart { tick: 200 });

    let no_end = vec![Bar::new(100, None, None, repeat_set(&[Repeat::Start]))];
    assert_eq!(render_region(Rhythm::new(4, 4), &no_end).unwrap_err(), RenderRegionError::NoRepeatEnd { tick: 100 });

    let var2_first = vec![Bar::new(100, None, None, repeat_set(&[Repeat::Var2]))];
    assert_eq!(
        render_region(Rhythm::new(4, 4), &var2_first).unwrap_err(),
        RenderRegionError::InvalidRegionIndex { tick: 100, actual: VarIndex::VI2, expected: VarIndex::VI1 }
    );

    let open_var = vec![Bar::new(100, None, None, repeat_set(&[Repeat::Var1]))];
    assert_eq!(render_region(Rhythm::new(4, 4), &open_var).unwrap_err(), RenderRegionError::VariationNotClosed { tick: 100 });

    let ds_alone = vec![Bar::new(100, None, None, repeat_set(&[Repeat::Ds]))];
    assert_eq!(render_region(Rhythm::new(4, 4), &ds_alone).unwrap_err(), RenderRegionError::NoSegnoForDs { ds_tick: 100 });

    let two_dc = vec![
        Bar::new(100, None, None, repeat_set(&[Repeat::Dc])),
        Bar::new(200, None, None, repeat_set(&[Repeat::Dc])),
    ];
    assert_eq!(render_region(Rhythm::new(4, 4), &two_dc).unwrap_err(), RenderRegionError::DuplicatedDsDc { tick: [100, 200] });
}

#[test]
fn optimize_joins_chunks_that_meet() {
    let chunks = vec![Chunk::new(0, 100), Chunk::new(100, 200), Chunk::new(50, 80), Chunk::new(80, 90)];
    assert_eq!(Chunk::optimize(&chunks), vec![Chunk::new(0, 200), Chunk::new(50, 90)]);
    assert!(Chunk::optimize(&[]).is_empty());
}

#[test]
fn by_accum_tick_keys_chunks_by_played_ticks() {
    let chunks = vec![Chunk::new(0, 100), Chunk::new(0, 100), Chunk::new(100, u32::MAX)];
    let store = Chunk::by_accum_tick(&chunks);
    let entries: &[(AccumTick, Chunk)] = &store;
    assert_eq!(entries, &[(0, Chunk::new(0, 100)), (100, Chunk::new(0, 100)), (200, Chunk::new(100, u32::MAX))][..]);
    assert_eq!(to_accum_tick(50, 2, &store).unwrap(), 150);
}

// Non auftakt.
// 0    480         580       730        880       1030      1180    1280
//   A   |[1]  B   |[1]   C   |[2]   D   |[2]   E   |Fine F   |   G   |DC
//
//   A   |     B    |     C   |   A  |   D   |   E   |   F   |   G   |  A  |   D   |   E   |
#[test]
fn simple_var_dc() {
    let bars = vec![
        Bar::new(480, None, None, repeat_set(&[Repeat::Var1])),
        Bar::new(580, None, None, repeat_set(&[Repeat::Var1])),
        Bar::new(730, None, None, repeat_set(&[Repeat::Var2])),
        Bar::new(880, None, None, repeat_set(&[Repeat::Var2])),
        Bar::new(1030, None, None, repeat_set(&[Repeat::Fine])),
        Bar::new(1180, None, None, repeat_set(&[])),
        Bar::new(1280, None, None, repeat_set(&[Repeat::Dc])),
    ];

    let (region, _warnings) = render_region(Rhythm::new(2, 4), &bars).unwrap();
    let chunks = region.to_chunks();
    assert_eq!(chunks.len(), 7);
    assert_eq!(chunks[0], Chunk::new(0, 480));
    assert_eq!(chunks[1], Chunk::new(480, 730));
    assert_eq!(chunks[2], Chunk::new(0, 480));
    assert_eq!(chunks[3], Chunk::new(730, 1030));
    assert_eq!(chunks[4], Chunk::new(1030, 1280));
    assert_eq!(chunks[5], Chunk::new(0, 480));
    assert_eq!(chunks[6], Chunk::new(730, 1030));

    let chunks = Chunk::optimize(&chunks);
    assert_eq!(chunks.len(), 5);
    assert_eq!(chunks[0], Chunk::new(0, 730));
    assert_eq!(chunks[1], Chunk::new(0, 480));
    assert_eq!(chunks[2], Chunk::new(730, 1280));
    assert_eq!(chunks[3], Chunk::new(0, 480));
    assert_eq!(chunks[4], Chunk::new(730, 1030));

    let by_accum_tick = Chunk::by_accum_tick(&chunks);
    assert_eq!(to_accum_tick(0, 1, &by_accum_tick).unwrap(), 0);
    assert_eq!(to_accum_tick(480, 1, &by_accum_tick).unwrap(), 480);
    assert_eq!(to_accum_tick(400, 2, &by_accum_tick).unwrap(), 730 + 400);
    assert_eq!(to_accum_tick(800, 1, &by_accum_tick).unwrap(), 730 + 480 + (800 - 730));
    assert_eq!(to_accum_tick(1180, 1, &by_accum_tick).unwrap(), 730 + 480 + (1180 - 730));
    assert_eq!(to_accum_tick(0, 3, &by_accum_tick).unwrap(), 730 + 480 + (1280 - 730));
    assert_eq!(to_accum_tick(0, 4, &by_accum_tick), Err(ToAccumTickError::CannotFind { specified_iter: PlayIter::new(4), max_iter: 3 }));
    assert_eq!(to_accum_tick(730, 2, &by_accum_tick).unwrap(), 730 + 480 + (1280 - 730) + 480);
    assert_eq!(to_accum_tick(730, 3, &by_accum_tick), Err(ToAccumTickError::CannotFind { specified_iter: PlayIter::new(3), max_iter: 2 }));
}

fn assert_chunks(actual: &[Chunk], expected: &[(u32, u32)]) {
    let mut z = actual.iter();
    for (s, e) in expected.iter() {
        assert_eq!(*z.next().unwrap(), Chunk::new(*s, *e));
    }
    assert_eq!(z.next(), None);
}

// 0 240  320 370  420  470  520  570  620 670     720 770 820  870 920 970
// A |: B | C |1 D |2 E |  F |: G | H  |1 I|2 J Fine| K |: L| M | N :| O |DC
//
// A | B | C | D | B | C | E | F | G | H | I | G | H | J | K | L | M | N | L | M
// |  N | O  | B  | C  | E  | F  | G  | H  | J  |
#[test]
fn repeat_and_dc() {
    let bars = vec![
        Bar::new(240, None, None, repeat_set(&[Repeat::Start])),
        Bar::new(320, None, None, repeat_set(&[])),
        Bar::new(370, None, None, repeat_set(&[Repeat::Var1])),
        Bar::new(420, None, None, repeat_set(&[Repeat::Var2])),
        Bar::new(470, None, None, repeat_set(&[])),
        Bar::new(520, None, None, repeat_set(&[Repeat::Start])),
        Bar::new(570, None, None, repeat_set(&[])),
        Bar::new(620, None, None, repeat_set(&[Repeat::Var1])),
        Bar::new(670, None, None, repeat_set(&[Repeat::Var2])),
        Bar::new(720, None, None, repeat_set(&[Repeat::Fine])),
        Bar::new(770, None, None, repeat_set(&[Repeat::Start])),
        Bar::new(820, None, None, repeat_set(&[])),
        Bar::new(870, None, None, repeat_set(&[])),
        Bar::new(920, None, None, repeat_set(&[Repeat::End])),
        Bar::new(970, None, None, repeat_set(&[Repeat::Dc])),
    ];

    let (region, _warnings) = render_region(Rhythm::new(2, 4), &bars).unwrap();
    let chunks = region.to_chunks();

    assert_eq!(chunks.len(), 20);
    assert_chunks(&chunks, &[
        (0, 240), (240, 370), (370, 420), (240, 370), (420, 470),
        (470, 520), (520, 620), (620, 670), (520, 620), (670, 720),
        (720, 770), (770, 920), (770, 920), (920, 970), (0, 240),
        (240, 370), (420, 470), (470, 520), (520, 620), (670, 720),
    ]);

    let chunks = Chunk::optimize(&chunks);
    assert_eq!(chunks.len(), 9);
    assert_chunks(&chunks, &[
        (0, 420), (240, 370), (420, 670), (520, 620), (670, 920),
        (770, 970), (0, 370), (420, 620), (670, 720),
    ]);
}

// 0   120          270          370
//   A  |     B    :|:Fine  C    :| D.C
//
//   A  |     B     |  A  |     B     |  C   |  C  |   A  |  B  |
#[test]
fn fine_and_repeat() {
    let bars = vec![
        Bar::new(120, None, None, repeat_set(&[])),
        Bar::new(270, None, None, repeat_set(&[Repeat::Start, Repeat::End, Repeat::Fine])),
        Bar::new(370, None, None, repeat_set(&[Repeat::Dc, Repeat::End])),
    ];

    let (region, _warnings) = render_region(Rhythm::new(1, 4), &bars).unwrap();
    let chunks = region.to_chunks();
    assert_eq!(chunks.len(), 5);
    assert_chunks(&chunks, &[(0, 270), (0, 270), (270, 370), (270, 370), (0, 270)]);

    let chunks = Chunk::optimize(&chunks);
    assert_chunks(&chunks, &[(0, 270), (0, 370), (270, 370), (0, 270)]);
}

// 0 120   170       270   370
// A |: B :|:Fine C :|: D :|D.C.
//
// A  B  B   C   C   D   D   A   B
#[test]
fn dc_and_repeat() {
    let bars = vec![
        Bar::new(120, None, None, repeat_set(&[Repeat::Start])),
        Bar::new(170, None, None, repeat_set(&[Repeat::Start, Repeat::End, Repeat::Fine])),
        Bar::new(270, None, None, repeat_set(&[Repeat::Start, Repeat::End])),
        Bar::new(370, None, None, repeat_set(&[Repeat::Dc, Repeat::End])),
    ];

    let (region, _warnings) = render_region(Rhythm::new(1, 4), &bars).unwrap();
    let chunks = region.to_chunks();
    assert_eq!(chunks.len(), 9);
    assert_chunks(&chunks, &[
        (0, 120), (120, 170), (120, 170), (170, 270), (170, 270),
        (270, 370), (270, 370), (0, 120), (120, 170),
    ]);

    let chunks = Chunk::optimize(&chunks);
    assert_chunks(&chunks, &[(0, 170), (120, 270), (170, 370), (270, 370), (0, 170)]);
}

// 0 120 170  270  370    470
// A | B |: C | D :|D.C. E |
//
// A B C D C D A B C D E
#[test]
fn repeat_dc_without_fine() {
    let bars = vec![
        Bar::new(120, None, None, repeat_set(&[])),
        Bar::new(170, None, None, repeat_set(&[Repeat::Start])),
        Bar::new(270, None, None, repeat_set(&[])),
        Bar::new(370, None, None, repeat_set(&[Repeat::Dc, Repeat::End])),
        Bar::new(470, None, None, repeat_set(&[])),
    ];

    let (region, _warnings) = render_region(Rhythm::new(1, 4), &bars).unwrap();
    let chunks = region.to_chunks();
    assert_eq!(chunks.len(), 6);
    assert_chunks(&chunks, &[(0, 170), (170, 370), (170, 370), (0, 170), (170, 370), (370, u32::MAX)]);

    let chunks = Chunk::optimize(&chunks);
    assert_chunks(&chunks, &[(0, 370), (170, 370), (0, u32::MAX)]);
}
