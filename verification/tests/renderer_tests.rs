use hdr2plot::hgrm::Decimal;
use hdr2plot::parser::parse;
use hdr2plot::renderer::{RenderPlan, Renderer, RendererInput};

fn dec(mantissa: u64, scale: u32) -> Decimal {
    Decimal::new(mantissa, scale)
}

fn fixture() -> &'static str {
    r#"
=== run A ===
       Value   Percentile   TotalCount 1/(1-Percentile)

       0.500     0.000000            3         1.00
       2.250     0.500000           10         2.00
       9.250     1.000000           12          inf
#[Mean    =        4.881, StdDeviation   =        1.777]
#[Max     =        9.250, Total count    =           12]
#[Buckets =           27, SubBuckets     =         2048]
"#
}

#[test]
fn line_plan_filters_terminal_row() {
    let parsed = parse(fixture()).unwrap();
    let renderer = Renderer::new(RendererInput::Line, parsed);
    match renderer.render() {
        RenderPlan::Line(series) => {
            assert_eq!(series.len(), 1);
            let s = &series[0];
            assert_eq!(s.name.as_deref(), Some("run A"));
            assert_eq!(s.total_count, 12);
            assert_eq!(
                s.points,
                vec![(dec(0, 6), dec(500, 3)), (dec(500000, 6), dec(2250, 3))]
            );
        }
        RenderPlan::Violin(_) => panic!("expected a line plan"),
    }
}

#[test]
fn violin_plan_takes_count_differences() {
    let parsed = parse(fixture()).unwrap();
    let renderer = Renderer::new(RendererInput::Violin, parsed);
    match renderer.render() {
        RenderPlan::Violin(series) => {
            assert_eq!(series.len(), 1);
            let s = &series[0];
            assert_eq!(s.name.as_deref(), Some("run A"));
            assert_eq!(s.total_count, 12);
            assert_eq!(
                s.points,
                vec![(dec(500, 3), 3), (dec(2250, 3), 7), (dec(9250, 3), 2)]
            );
        }
        RenderPlan::Line(_) => panic!("expected a violin plan"),
    }
}
