use klavier_core::global_repeat::GlobalRepeatBuilder;
use klavier_core::repeat::RenderRegionError;
use klavier_core::rhythm::Rhythm;

#[test]
fn global_repeat_dc_without_fine() -> Result<(), RenderRegionError> {
    let (gr, _warn) = GlobalRepeatBuilder::new(Rhythm::new(4, 4))
        .adding_dc(4000, 240 * 4)?
        .adding_first_bar_len(240 * 4)?
        .build()?;

    let ranges = gr.as_ref().unwrap().iter1_interval_set();
    assert_eq!(ranges.runs(), vec![(0, u32::MAX - 1)]);

    Ok(())
}

#[test]
fn dc_with_fine() -> Result<(), RenderRegionError> {
    let (gr, _warn) = GlobalRepeatBuilder::new(Rhythm::new(4, 4))
        .adding_dc(8000, 240 * 4)?
        .adding_fine(4000)?
        .adding_first_bar_len(240 * 4)?
        .build()?;

    let ranges = gr.as_ref().unwrap().iter1_interval_set();
    assert_eq!(ranges.runs(), vec![(0, 4000 - 1)]);

    Ok(())
}

#[test]
fn dc_with_fine_auftakt() -> Result<(), RenderRegionError> {
    let (gr, _warn) = GlobalRepeatBuilder::new(Rhythm::new(4, 4))
        .adding_dc(4000, 240 * 4)?
        .adding_fine(2000)?
        .adding_first_bar_len(240)?
        .build()?;

    let ranges = gr.as_ref().unwrap().iter1_interval_set();
    assert_eq!(ranges.runs(), vec![(240, 2000 - 1)]);

    Ok(())
}

#[test]
fn dc_with_coda_fine_auftakt() -> Result<(), RenderRegionError> {
    let (gr, _warn) = GlobalRepeatBuilder::new(Rhythm::new(4, 4))
        .adding_dc(4000, 240 * 4)?
        .adding_coda(1000)?
        .adding_coda(5000)?
        .adding_fine(8000)?
        .adding_first_bar_len(240)?
        .build()?;

    let ranges = gr.as_ref().unwrap().iter1_interval_set();
    assert_eq!(ranges.runs(), vec![(240, 1000 - 1), (5000, 8000 - 1)]);

    Ok(())
}

#[test]
fn ds_without_fine() -> Result<(), RenderRegionError> {
    let (gr, _warn) = GlobalRepeatBuilder::new(Rhythm::new(4, 4))
        .adding_ds(4000)?
        .adding_segno(100)?
        .build()?;

    let ranges = gr.as_ref().unwrap().iter1_interval_set();
    assert_eq!(ranges.runs(), vec![(100, u32::MAX - 1)]);

    Ok(())
}

#[test]
fn ds_with_fine() -> Result<(), RenderRegionError> {
    let (gr, _warn) = GlobalRepeatBuilder::new(Rhythm::new(4, 4))
        .adding_ds(8000)?
        .adding_fine(4000)?
        .adding_segno(100)?
        .build()?;

    let ranges = gr.as_ref().unwrap().iter1_interval_set();
    assert_eq!(ranges.runs(), vec![(100, 4000 - 1)]);

    Ok(())
}

#[test]
fn ds_with_coda_fine() -> Result<(), RenderRegionError> {
    let (gr, _warn) = GlobalRepeatBuilder::new(Rhythm::new(4, 4))
        .adding_ds(4000)?
        .adding_coda(1000)?
        .adding_coda(5000)?
        .adding_fine(8000)?
        .adding_segno(240)?
        .build()?;

    let ranges = gr.as_ref().unwrap().iter1_interval_set();
    assert_eq!(ranges.runs(), vec![(240, 1000 - 1), (5000, 8000 - 1)]);

    Ok(())
}

#[test]
fn fine_without_ds_dc_is_error() {
    let r = GlobalRepeatBuilder::new(Rhythm::new(4, 4))
        .adding_fine(4000)
        .unwrap()
        .adding_first_bar_len(240 * 4)
        .unwrap()
        .build();
    assert_eq!(r.err(), Some(RenderRegionError::FineWithoutDsDc { tick: 4000 }));
}
