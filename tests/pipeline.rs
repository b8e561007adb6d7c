use bencher::aggregate::{aggregate, Group};
use bencher::chart::{
    layout, palette_color, value_range, Axis, Color, Series, LEGEND_STEP_SUB, LEGEND_TOP_SUB,
    MARGIN_SUB, PLOT_HEIGHT_SUB, PLOT_WIDTH_SUB,
};
use bencher::config::Config;
use bencher::corpus::Corpus;
use bencher::error::ErrorKind;
use bencher::run::BenchRun;
use bencher::svg::svg_document;
use bencher::table::{parse_decimal, parse_table, row_line, rows_from_records, PlotKind};

fn text_rows(v: &[(u64, &str)]) -> Vec<(u64, Vec<u8>)> {
    v.iter().map(|(c, t)| (*c, t.as_bytes().to_vec())).collect()
}

fn small_config(max_attempts: u64) -> Config {
    Config::new(7, 2, 5, 2, max_attempts).unwrap()
}

#[test]
fn config_rejects_bad_bounds() {
    assert!(Config::new(1, 5, 5, 2, 10).is_none());
    assert!(Config::new(1, 6, 5, 2, 10).is_none());
    assert!(Config::new(1, 2, 5, 0, 10).is_none());
    assert!(Config::new(1, 0, 0x1_0000_0001, 1, 10).is_none());
    assert!(Config::new(1, 0, 0x1_0000, 0x1_0000, 10).is_none());
    assert!(Config::new(1, 2, 5, 2, 10).is_some());
}

#[test]
fn standard_config_values() {
    let c = Config::standard();
    assert_eq!(c.seed, 42);
    assert_eq!(c.min_metric, 6);
    assert_eq!(c.max_metric, 40);
    assert_eq!(c.capacity, 4);
}

#[test]
fn corpus_fills_every_bin_in_order() {
    let cfg = small_config(100);
    let mut corpus: Corpus<&str> = Corpus::new(cfg);
    let offers = [
        (4, "a"),
        (1, "out_low"),
        (2, "b"),
        (4, "c"),
        (4, "full"),
        (9, "out_high"),
        (3, "d"),
        (2, "e"),
        (3, "f"),
    ];
    let expected_kept = [true, false, true, true, false, false, true, true, true];
    for (k, (m, s)) in offers.iter().enumerate() {
        assert!(!corpus.is_complete());
        assert_eq!(corpus.offer(*m, *s), Ok(expected_kept[k]));
    }
    assert!(corpus.is_complete());
    assert_eq!(corpus.offer(3, "late"), Ok(false));
    let samples = corpus.into_samples();
    assert_eq!(samples.len(), 6);
    assert_eq!(
        samples,
        vec![(2, "b"), (2, "e"), (3, "d"), (3, "f"), (4, "a"), (4, "c")]
    );
    for (i, (c, _)) in samples.iter().enumerate() {
        assert_eq!(*c, 2 + (i as u64) / 2);
    }
}

#[test]
fn corpus_chunks_share_a_complexity() {
    let cfg = Config::new(42, 6, 40, 4, 1_000_000).unwrap();
    let mut corpus: Corpus<u64> = Corpus::new(cfg);
    let mut n: u64 = 0;
    while !corpus.is_complete() {
        let metric = n * 7 % 50;
        corpus.offer(metric, n).unwrap();
        n += 1;
    }
    let samples = corpus.into_samples();
    assert_eq!(samples.len(), 34 * 4);
    for chunk in 0..34 {
        let c = samples[chunk * 4].0;
        for j in 0..4 {
            assert_eq!(samples[chunk * 4 + j].0, c);
        }
        if chunk > 0 {
            assert!(samples[chunk * 4 - 1].0 < c);
        }
    }
}

#[test]
fn corpus_gives_up_after_its_budget() {
    let cfg = small_config(3);
    let mut corpus: Corpus<u32> = Corpus::new(cfg);
    assert!(!corpus.budget_spent());
    assert_eq!(corpus.offer(2, 0), Ok(true));
    assert_eq!(corpus.offer(7, 1), Ok(false));
    assert_eq!(corpus.offer(7, 2), Ok(false));
    assert!(corpus.budget_spent());
    assert_eq!(
        corpus.offer(2, 3),
        Err(ErrorKind::CorpusGenerationExhausted)
    );
}

#[test]
fn corpus_depth_sweep_wraps() {
    let cfg = small_config(1000);
    let mut corpus: Corpus<u32> = Corpus::new(cfg);
    assert_eq!(corpus.next_depth(), 2);
    for _ in 0..48 {
        corpus.offer(100, 0).unwrap();
    }
    assert_eq!(corpus.next_depth(), 2);
    corpus.offer(100, 0).unwrap();
    assert_eq!(corpus.next_depth(), 3);
}

fn count_run_rows(cfg: Config, bound: u64) -> (usize, usize) {
    let mut run = BenchRun::new(cfg, bound);
    let mut nterms_rows = 0;
    let mut times_rows = 0;
    while let Some((i, c)) = run.next_sample() {
        assert_eq!(c, cfg.min_metric + i as u64 / cfg.capacity);
        let (a, b) = run.record(10, 20);
        nterms_rows += a.iter().filter(|&&x| x == b'\n').count();
        times_rows += b.iter().filter(|&&x| x == b'\n').count();
    }
    assert!(run.finished());
    (nterms_rows, times_rows)
}

#[test]
fn run_writes_one_row_per_sample_below_bound() {
    let cfg = Config::standard();
    assert_eq!(count_run_rows(cfg, 32), (104, 104));
    assert_eq!(count_run_rows(cfg, 40), (136, 136));
    assert_eq!(count_run_rows(cfg, 100), (136, 136));
    assert_eq!(count_run_rows(cfg, 6), (0, 0));
    assert_eq!(count_run_rows(cfg, 3), (0, 0));
}

#[test]
fn run_rows_carry_complexity() {
    let cfg = small_config(10);
    let mut run = BenchRun::new(cfg, 4);
    assert_eq!(run.next_sample(), Some((0, 2)));
    assert_eq!(run.record(5, 1234), (b"2,5\n".to_vec(), b"2,1234\n".to_vec()));
    run.record(6, 1);
    assert_eq!(run.next_sample(), Some((2, 3)));
    assert_eq!(run.record(0, 18446744073709551615).1, b"3,18446744073709551615\n".to_vec());
}

#[test]
fn row_line_text() {
    assert_eq!(row_line(6, 10), b"6,10\n".to_vec());
    assert_eq!(row_line(0, 0), b"0,0\n".to_vec());
    assert_eq!(row_line(39, 1000000), b"39,1000000\n".to_vec());
}

#[test]
fn decimal_parsing() {
    assert_eq!(parse_decimal(&b"0".to_vec()), Some(0));
    assert_eq!(parse_decimal(&b"0042".to_vec()), Some(42));
    assert_eq!(parse_decimal(&b"18446744073709551615".to_vec()), Some(u64::MAX));
    assert_eq!(parse_decimal(&b"18446744073709551616".to_vec()), None);
    assert_eq!(parse_decimal(&b"".to_vec()), None);
    assert_eq!(parse_decimal(&b"1.5".to_vec()), None);
    assert_eq!(parse_decimal(&b"-3".to_vec()), None);
}

#[test]
fn table_round_trip() {
    let mut data = PlotKind::TermCount.header().as_bytes().to_vec();
    data.push(b'\n');
    data.extend(row_line(6, 10));
    data.extend(row_line(6, 20));
    data.extend(row_line(7, 30));
    assert_eq!(parse_table(&data), Ok(text_rows(&[(6, "10"), (6, "20"), (7, "30")])));
}

#[test]
fn table_with_header_only_is_empty() {
    assert_eq!(parse_table(b"t_count,runtime_nanos\n"), Ok(vec![]));
    assert_eq!(parse_table(b""), Ok(vec![]));
}

#[test]
fn malformed_tables() {
    assert_eq!(
        parse_table(b"t_count,nterms\nx,5\n"),
        Err(ErrorKind::MalformedRecord)
    );
    assert_eq!(
        parse_table(b"t_count,nterms\n6.5,5\n"),
        Err(ErrorKind::MalformedRecord)
    );
    assert_eq!(
        parse_table(b"t_count,nterms\n6,1,2\n"),
        Err(ErrorKind::MalformedRecord)
    );
    assert_eq!(
        rows_from_records(&vec![vec![b"6".to_vec()]]),
        Err(ErrorKind::MalformedRecord)
    );
    assert_eq!(
        rows_from_records(&vec![vec![b"6".to_vec(), b"9".to_vec()]]),
        Ok(text_rows(&[(6, "9")]))
    );
}

#[test]
fn float_values_are_kept() {
    assert_eq!(
        parse_table(b"t_count,runtime_nanos\n6,1.5\n7,2e3\n6,10\n"),
        Ok(text_rows(&[(6, "1.5"), (7, "2e3"), (6, "10")]))
    );
}

#[test]
fn plot_kind_names() {
    assert_eq!(PlotKind::TermCount.header(), "t_count,nterms");
    assert_eq!(PlotKind::Runtime.header(), "t_count,runtime_nanos");
    assert_eq!(PlotKind::TermCount.file_prefix(), "benchmark_alpha_");
    assert_eq!(PlotKind::Runtime.file_prefix(), "benchmark_times_");
    assert_eq!(PlotKind::TermCount.chart_file(), "nterms_plot.svg");
    assert_eq!(PlotKind::Runtime.chart_file(), "runtime_plot.svg");
    assert_eq!(PlotKind::Runtime.scale(), 1_000_000);
    assert_eq!(PlotKind::TermCount.scale(), 1);
}

#[test]
fn aggregate_groups_values() {
    let rows = text_rows(&[(7, "30"), (6, "10"), (9, "1.5"), (6, "20")]);
    assert_eq!(
        aggregate(&rows),
        vec![
            Group { complexity: 6, values: vec![b"10".to_vec(), b"20".to_vec()] },
            Group { complexity: 7, values: vec![b"30".to_vec()] },
            Group { complexity: 9, values: vec![b"1.5".to_vec()] },
        ]
    );
}

fn sorted_groups(rows: &Vec<(u64, Vec<u8>)>) -> Vec<(u64, Vec<Vec<u8>>)> {
    aggregate(rows)
        .into_iter()
        .map(|g| {
            let mut v = g.values;
            v.sort();
            (g.complexity, v)
        })
        .collect()
}

#[test]
fn aggregate_ignores_row_order() {
    let rows = text_rows(&[(6, "10"), (7, "30"), (6, "20.5"), (8, "4"), (7, "2")]);
    let mut shuffled = rows.clone();
    shuffled.reverse();
    shuffled.swap(0, 2);
    assert_eq!(sorted_groups(&rows), sorted_groups(&shuffled));
    assert_eq!(sorted_groups(&rows).len(), 3);
}

#[test]
fn aggregate_empty_table() {
    assert_eq!(aggregate(&vec![]), vec![]);
}

fn mean(values: &[Vec<u8>]) -> f64 {
    let sum: f64 = values
        .iter()
        .map(|v| std::str::from_utf8(v).unwrap().parse::<f64>().unwrap())
        .sum();
    sum / values.len() as f64
}

fn log_nano(m: f64) -> i64 {
    (m.ln() * 1e9).round() as i64
}

fn series_of(name: &str, rows: &[(u64, &str)]) -> Series {
    Series {
        name: name.as_bytes().to_vec(),
        points: aggregate(&text_rows(rows))
            .iter()
            .map(|g| (g.complexity, log_nano(mean(&g.values))))
            .collect(),
    }
}

#[test]
fn two_variants_scenario() {
    let a = series_of("variantA", &[(6, "10"), (6, "20"), (7, "30")]);
    let b = series_of("variantB", &[(6, "5"), (7, "15")]);
    assert_eq!(a.points, vec![(6, log_nano(15.0)), (7, log_nano(30.0))]);
    assert_eq!(b.points, vec![(6, log_nano(5.0)), (7, log_nano(15.0))]);
    let fig = layout(Config::standard(), &vec![a, b]).unwrap();
    assert_eq!(fig.traces.len(), 2);
    assert_eq!(fig.traces[0].name, b"variantA".to_vec());
    assert_eq!(fig.traces[1].name, b"variantB".to_vec());
    assert_ne!(fig.traces[0].color, fig.traces[1].color);
    assert_eq!(fig.traces[0].color.name(), "red");
    assert_eq!(fig.traces[1].color.name(), "blue");
    assert_eq!(fig.traces[0].legend_y, LEGEND_TOP_SUB);
    assert_eq!(fig.traces[1].legend_y, LEGEND_TOP_SUB + LEGEND_STEP_SUB);
    // variantA: M 50 243.43 L 71.21 50; variantB: M 50 550 L 71.21 243.43
    let (xs, ys) = (fig.x_axis.span(), fig.y_axis.span());
    let near = |num: i128, span: i128, w: f64| (num as f64 / span as f64 - w).abs() < 0.5;
    let pa = &fig.traces[0].points;
    let pb = &fig.traces[1].points;
    assert_eq!(pa.len(), 2);
    assert_eq!(pb.len(), 2);
    assert_eq!(pa[0].0, MARGIN_SUB * xs);
    assert!(near(pa[0].1, ys, 24343.0));
    assert!(near(pa[1].0, xs, 7121.0));
    assert_eq!(pa[1].1, MARGIN_SUB * ys);
    assert_eq!(pb[0], (MARGIN_SUB * xs, (MARGIN_SUB + PLOT_HEIGHT_SUB) * ys));
    assert_eq!(pb[1].0, pa[1].0);
    assert_eq!(pb[1].1, pa[0].1);
}

#[test]
fn layout_without_points_is_refused() {
    let empty = series_of("variantA", &[]);
    assert!(empty.points.is_empty());
    assert_eq!(
        layout(Config::standard(), &vec![empty]).err(),
        Some(ErrorKind::NoData)
    );
    assert_eq!(layout(Config::standard(), &vec![]).err(), Some(ErrorKind::NoData));
}

#[test]
fn layout_axes_and_ticks() {
    let s = Series { name: b"v".to_vec(), points: vec![(6, -500), (39, 1500), (20, 0)] };
    let fig = layout(Config::standard(), &vec![s]).unwrap();
    assert_eq!(fig.x_axis, Axis { lo: 6_000_000_000, hi: 39_000_000_000 });
    assert_eq!(fig.y_axis, Axis { lo: -500, hi: 1500 });
    assert_eq!(fig.x_ticks.len(), 6);
    assert_eq!(fig.y_ticks.len(), 6);
    assert_eq!(fig.x_ticks[0].pos, 5000);
    assert_eq!(fig.x_ticks[5].pos, 75000);
    assert_eq!(fig.x_ticks[1].value, 12_600_000_000);
    assert_eq!(fig.x_ticks[5].value, 39_000_000_000);
    assert_eq!(fig.y_ticks[0].value, 1500);
    assert_eq!(fig.y_ticks[1].value, 1100);
    assert_eq!(fig.y_ticks[5].value, -500);
    assert_eq!(fig.y_ticks[5].pos, 55000);
    let (xs, ys) = (fig.x_axis.span(), fig.y_axis.span());
    assert_eq!((xs, ys), (33_000_000_000, 2000));
    let p = &fig.traces[0].points;
    assert_eq!(p[0], (MARGIN_SUB * xs, (MARGIN_SUB + PLOT_HEIGHT_SUB) * ys));
    assert_eq!(p[1], ((MARGIN_SUB + PLOT_WIDTH_SUB) * xs, MARGIN_SUB * ys));
    // x: 5000 + 14 * 70000 / 33 = 34696.96.., y: 5000 + 1500 * 50000 / 2000 = 42500
    assert_eq!(p[2], (5000 * xs + 14_000_000_000 * 70000, 42500 * ys));
}

#[test]
fn layout_flat_values_are_widened() {
    let s = Series { name: b"v".to_vec(), points: vec![(10, 700), (11, 700)] };
    let fig = layout(Config::standard(), &vec![s]).unwrap();
    assert_eq!(fig.y_axis, Axis { lo: 700 - 1_000_000_000, hi: 700 + 1_000_000_000 });
    assert_eq!(fig.traces[0].points[0].1, 30000 * fig.y_axis.span());
}

#[test]
fn points_below_the_axis_floor() {
    let s = Series { name: b"v".to_vec(), points: vec![(5, 0), (6, 1)] };
    let fig = layout(Config::standard(), &vec![s]).unwrap();
    // 5000 - 70000 / 33 = 2878.78..
    assert_eq!(
        fig.traces[0].points[0].0,
        5000 * fig.x_axis.span() - 1_000_000_000 * 70000
    );
}

#[test]
fn close_values_stay_apart() {
    let s = Series {
        name: b"v".to_vec(),
        points: vec![(6, 0), (7, 1), (8, 2), (9, 1_000_000_000_000)],
    };
    let fig = layout(Config::standard(), &vec![s]).unwrap();
    let p = &fig.traces[0].points;
    assert!(p[0].1 > p[1].1);
    assert!(p[1].1 > p[2].1);
    assert!(p[2].1 > p[3].1);
    assert!(p[0].0 < p[1].0 && p[1].0 < p[2].0 && p[2].0 < p[3].0);
}

#[test]
fn value_range_over_series() {
    let a = Series { name: b"a".to_vec(), points: vec![] };
    let b = Series { name: b"b".to_vec(), points: vec![(1, 4), (2, -9)] };
    let c = Series { name: b"c".to_vec(), points: vec![(3, 12)] };
    assert_eq!(value_range(&vec![a, b, c]), Some((-9, 12)));
    assert_eq!(value_range(&vec![]), None);
}

#[test]
fn palette_cycles() {
    assert_eq!(palette_color(0), Color::Red);
    assert_eq!(palette_color(4), Color::Cyan);
    assert_eq!(palette_color(5), Color::Red);
    assert_eq!(palette_color(7), Color::Green);
    assert_eq!(Color::Magenta.name(), "magenta");
}

#[test]
fn two_variants_document() {
    let a = series_of("variantA", &[(6, "10"), (6, "20"), (7, "30")]);
    let b = series_of("variantB", &[(6, "5"), (7, "15")]);
    let fig = layout(Config::standard(), &vec![a, b]).unwrap();
    let doc = String::from_utf8(svg_document(PlotKind::TermCount, &fig)).unwrap();
    assert!(doc.starts_with("<svg width=\"800\" height=\"600\""));
    assert!(doc.ends_with("</svg>"));
    assert!(doc.contains("Average log(n_terms) vs t_count"));
    assert_eq!(doc.matches("<path ").count(), 2);
    assert!(doc.contains("<path d=\"M 5000 24342 L 7121 5000\" fill=\"none\" stroke=\"red\""));
    assert!(doc.contains("<path d=\"M 5000 55000 L 7121 24342\" fill=\"none\" stroke=\"blue\""));
    assert_eq!(doc.matches("<circle ").count(), 4);
    assert_eq!(doc.matches("font-family=\"sans-serif\">variantA</text>").count(), 1);
    assert_eq!(doc.matches("font-family=\"sans-serif\">variantB</text>").count(), 1);
    assert_eq!(doc.matches("<line x1=\"65000\"").count(), 2);
    // y labels run from log 30 = 3.40 down to log 5 = 1.61; x labels from 6 to 39
    assert!(doc.contains(">3.40</text>"));
    assert!(doc.contains(">1.61</text>"));
    assert!(doc.contains(">6</text>"));
    assert!(doc.contains(">39</text>"));
}

#[test]
fn document_of_negative_values() {
    let s = Series { name: b"v".to_vec(), points: vec![(6, -2_505_000_000), (7, -10_000_000)] };
    let fig = layout(Config::standard(), &vec![s]).unwrap();
    let doc = String::from_utf8(svg_document(PlotKind::Runtime, &fig)).unwrap();
    assert!(doc.contains("log(runtime in ms)"));
    assert!(doc.contains(">-2.50</text>"));
    assert!(doc.contains(">-0.01</text>"));
}
