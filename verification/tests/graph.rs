use glance_anki::anki::AnkiStats;
use glance_anki::api::{
    build_graph_cells, build_month_labels, build_svg_template, first_date_weekday, max_review_count,
    widget_title, WidgetParams,
};
use glance_anki::config::Config;

fn stats(days: &[(&str, u32)]) -> AnkiStats {
    AnkiStats {
        deck: "All Decks".to_string(),
        days: days.len() as u32,
        daily_reviews: days
            .iter()
            .map(|(d, c)| (d.to_string(), *c, format!("{}: label", d)))
            .collect(),
    }
}

fn config() -> Config {
    Config { collection_path: "c".to_string(), port: 1, default_days: 30 }
}

fn params(pairs: &[(&str, &str)]) -> Vec<(String, String)> {
    pairs.iter().map(|(k, v)| (k.to_string(), v.to_string())).collect()
}

#[test]
fn widget_parameters() {
    let p = WidgetParams::from_query(&params(&[("deck", "Japanese"), ("days", "90"), ("timezone", "Europe/Paris")]), &config());
    assert_eq!(p.deck.as_deref(), Some("Japanese"));
    assert_eq!(p.days, 90);
    assert_eq!(p.timezone.as_deref(), Some("Europe/Paris"));
    let p = WidgetParams::from_query(&params(&[("deck", ""), ("days", "many"), ("timezone", "")]), &config());
    assert_eq!(p.deck, None);
    assert_eq!(p.days, 30);
    assert_eq!(p.timezone, None);
    let p = WidgetParams::from_query(&params(&[]), &config());
    assert_eq!(p.deck, None);
    assert_eq!(p.days, 30);
}

#[test]
fn weekday_of_first_day() {
    assert_eq!(first_date_weekday(&stats(&[("2024-03-15", 1)])), 5);
    assert_eq!(first_date_weekday(&stats(&[("2024-03-17", 1)])), 0);
    assert_eq!(first_date_weekday(&stats(&[("garbage", 1)])), 0);
    assert_eq!(first_date_weekday(&stats(&[])), 0);
}

#[test]
fn highest_count() {
    assert_eq!(max_review_count(&stats(&[("2024-03-15", 3), ("2024-03-16", 9), ("2024-03-17", 4)])), 9);
    assert_eq!(max_review_count(&stats(&[])), 0);
}

#[test]
fn cells_by_week_and_weekday() {
    let s = stats(&[("2024-03-15", 1), ("2024-03-16", 0), ("2024-03-17", 2), ("bad", 5)]);
    let opacities = vec!["a".to_string(), "".to_string(), "c".to_string(), "d".to_string()];
    let cells = build_graph_cells(&s, &opacities);
    assert_eq!(cells.len(), 4);
    assert_eq!((cells[0].col, cells[0].row), (0, 5));
    assert_eq!((cells[1].col, cells[1].row), (0, 6));
    assert_eq!((cells[2].col, cells[2].row), (1, 0));
    // An unreadable date takes its row from its position.
    assert_eq!((cells[3].col, cells[3].row), (1, 3));
    assert_eq!(cells[2].date, "2024-03-17");
    assert_eq!(cells[2].count, 2);
    assert_eq!(cells[2].opacity, "c");
    assert_eq!(cells[2].hover_text, "2024-03-17: label");
}

#[test]
fn month_labels_where_months_begin() {
    let s = stats(&[("2024-01-30", 0), ("2024-01-31", 0), ("2024-02-01", 0), ("x", 0), ("2024-02-02", 0), ("2024-03-01", 0)]);
    let labels = build_month_labels(&s);
    // 2024-01-30 is a Tuesday.
    assert_eq!(labels, vec![(0, "Jan".to_string()), (0, "Feb".to_string()), (1, "Mar".to_string())]);
    assert_eq!(build_month_labels(&stats(&[])), vec![]);
}

#[test]
fn svg_layout() {
    let s = stats(&[("2024-03-15", 1), ("2024-03-16", 0), ("2024-03-17", 2)]);
    let opacities = vec![String::new(); 3];
    let svg = build_svg_template(&s, &opacities);
    assert_eq!(svg.cells.len(), 3);
    assert_eq!(svg.viewbox_width, 2 * 14 + 30);
    assert_eq!(svg.viewbox_height, 20 + 7 * 14);
    assert_eq!(svg.month_labels, vec![(0, "Mar".to_string())]);
    assert_eq!(svg.weekday_labels, vec![(1, "Mon"), (3, "Wed"), (5, "Fri")]);
    assert_eq!(svg.cell_radius, 2);
    let empty = build_svg_template(&stats(&[]), &vec![]);
    assert_eq!(empty.viewbox_width, 14 + 30);
}

#[test]
fn title_of_widget() {
    assert_eq!(widget_title("Japanese"), "Anki – Japanese");
}

#[test]
fn consecutive_dates_fill_the_grid_in_order() {
    let s = stats(&[
        ("2024-02-27", 0), ("2024-02-28", 0), ("2024-02-29", 0), ("2024-03-01", 0),
        ("2024-03-02", 0), ("2024-03-03", 0), ("2024-03-04", 0), ("2024-03-05", 0),
    ]);
    let cells = build_graph_cells(&s, &vec![String::new(); 8]);
    let w0 = first_date_weekday(&s);
    assert_eq!(w0, 2); // 2024-02-27 is a Tuesday.
    for (i, c) in cells.iter().enumerate() {
        assert!(c.row < 7);
        assert_eq!(c.col * 7 + c.row, w0 + i);
    }
}
