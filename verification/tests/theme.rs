use dar::layout::{split_layout, LayoutRegions};
use dar::theme::{color_to_string, parse_color, Color, Theme, ThemeConfig, TILE_PALETTE_SIZE};
use dar::treemap::Rect;

#[test]
fn theme_default_palette_is_expected() {
    let theme = Theme::default();
    assert_eq!(theme.background, Color::Reset);
    assert_eq!(theme.foreground, Color::White);
    assert_eq!(theme.selection, Color::Blue);
    assert_eq!(theme.directory, Color::Cyan);
    assert_eq!(theme.file, Color::Gray);
    assert_eq!(theme.bar, Color::LightGreen);
    assert_eq!(theme.bar_bg, Color::Reset);
    assert_eq!(theme.tile_palette.len(), TILE_PALETTE_SIZE);
    assert_eq!(theme.tile_color(0), Color::LightGreen);
    assert_eq!(theme.tile_color(5), Color::Yellow);
    assert_eq!(theme.tile_color(19), Color::Rgb(255, 192, 203));
}

#[test]
fn tile_color_skips_the_selection_colour() {
    let mut theme = Theme::default();
    theme.tile_palette[3] = Color::Blue;
    assert_eq!(theme.tile_color(3), Color::LightCyan);
    assert_eq!(theme.tile_color(23), Color::LightCyan);
    theme.tile_palette = [Color::Blue; TILE_PALETTE_SIZE];
    assert_eq!(theme.tile_color(7), Color::LightGreen);
}

#[test]
fn theme_config_fills_short_palettes_with_defaults() {
    let mut config = ThemeConfig::default();
    assert_eq!(config.tile_palette.len(), TILE_PALETTE_SIZE);
    config.tile_palette = vec![Color::Red, Color::Indexed(3)];
    config.selection = Color::Green;
    let theme = config.to_theme();
    assert_eq!(theme.selection, Color::Green);
    assert_eq!(theme.tile_palette[0], Color::Red);
    assert_eq!(theme.tile_palette[1], Color::Indexed(3));
    assert_eq!(theme.tile_palette[2], Color::LightBlue);
    assert_eq!(theme.tile_palette[19], Color::Rgb(255, 192, 203));
    config.tile_palette = vec![Color::Black; 25];
    assert_eq!(config.to_theme().tile_palette, [Color::Black; TILE_PALETTE_SIZE]);
}

#[test]
fn colours_are_written_by_name() {
    assert_eq!(color_to_string(&Color::DarkGray), "DarkGray");
    assert_eq!(color_to_string(&Color::Rgb(255, 0, 12)), "rgb(255,0,12)");
    assert_eq!(color_to_string(&Color::Indexed(7)), "indexed(7)");
}

#[test]
fn colours_are_read_back() {
    assert_eq!(parse_color("  LightBlue "), Ok(Color::LightBlue));
    assert_eq!(parse_color("darkgray"), Ok(Color::DarkGray));
    assert_eq!(parse_color("rgb( 1, 2 ,3 )"), Ok(Color::Rgb(1, 2, 3)));
    assert_eq!(parse_color("indexed( 200 )"), Ok(Color::Indexed(200)));
    for c in [Color::Reset, Color::White, Color::Rgb(9, 99, 199), Color::Indexed(0)] {
        assert_eq!(parse_color(&color_to_string(&c)), Ok(c));
    }
}

#[test]
fn bad_colours_are_refused() {
    assert_eq!(parse_color("rgb(1,2,300)"), Err("invalid rgb component 300".to_string()));
    assert_eq!(parse_color("rgb(x,2,3)"), Err("invalid rgb component x".to_string()));
    assert_eq!(parse_color("indexed(a b)"), Err("invalid index a b".to_string()));
    assert_eq!(parse_color("Purple"), Err("unknown color 'purple'".to_string()));
    assert_eq!(parse_color("rgb(1,2)"), Err("unknown color 'rgb(1,2)'".to_string()));
}

fn area() -> Rect {
    Rect { x: 0, y: 0, width: 80, height: 24 }
}

#[test]
fn layout_layout_splits_evenly() {
    let area = area();
    let regions: LayoutRegions = split_layout(area, true);
    assert_eq!(regions.header.height, 3);
    assert_eq!(regions.footer.height, 2);
    assert_eq!(regions.tree.height, 14);
    assert_eq!(regions.tree.width, 60);
    assert_eq!(regions.treemap.width, 20);
    assert_eq!(regions.details.width, 40);
    assert_eq!(regions.activity.width, 40);
    assert_eq!(regions.details.height, 5);
    assert_eq!(regions.activity.height, 5);
    assert_eq!(regions.tree.y, regions.header.height);
    assert_eq!(regions.footer.y, area.height - regions.footer.height);
}

#[test]
fn layout_hides_treemap_when_disabled() {
    let regions = split_layout(area(), false);
    assert_eq!(regions.tree.width, 80);
    assert_eq!(regions.treemap.width, 0);
    assert_eq!(regions.treemap.height, regions.tree.height);
}

#[test]
fn layout_caps_the_lower_panels() {
    let regions = split_layout(Rect { x: 0, y: 0, width: 100, height: 60 }, true);
    assert_eq!(regions.details.height, 8);
    assert_eq!(regions.tree.height + regions.details.height, 55);
    assert_eq!(regions.details.y, regions.tree.y + regions.tree.height);
}

#[test]
fn helpers_centered_rect_is_inside_parent() {
    let outer = Rect { x: 0, y: 0, width: 100, height: 40 };
    let inner = dar::layout::centered_rect(80, 70, outer);
    assert!(inner.width < outer.width);
    assert!(inner.height < outer.height);
    assert!(inner.x > outer.x);
    assert!(inner.y > outer.y);
}

#[test]
fn ui_centered_rect_is_inside_parent() {
    let outer = Rect { x: 0, y: 0, width: 100, height: 40 };
    let inner = dar::layout::centered_rect(80, 70, outer);
    assert!(inner.width < outer.width);
    assert!(inner.height < outer.height);
    assert!(inner.x > outer.x);
    assert!(inner.y > outer.y);
}

#[test]
fn color_names_are_read_without_unicode_spaces() {
    assert_eq!(parse_color("\u{3000}red\u{a0}"), Ok(Color::Red));
    assert_eq!(parse_color("\u{2003}Blue\u{85}"), Ok(Color::Blue));
}
