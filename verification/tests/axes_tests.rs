use fontcodec::axes::{
    convert_metric_name, fixup_axes, fixup_axis_mappings, Axis, Font, Location, Master,
};

fn master_at(name: &str, id: &str, pairs: &[(&str, i64)]) -> Master {
    let mut loc = Location::new();
    for (tag, v) in pairs {
        loc.insert((*tag).to_owned(), *v);
    }
    Master::new(name.to_owned(), id.to_owned(), loc)
}

#[test]
fn metric_names() {
    assert_eq!(convert_metric_name("x-height"), "xHeight");
    assert_eq!(convert_metric_name("cap height"), "capHeight");
    assert_eq!(convert_metric_name("ascender"), "ascender");
    assert_eq!(convert_metric_name(""), "");
}

#[test]
fn location_lookup() {
    let mut loc = Location::new();
    assert_eq!(loc.get("wght"), 0);
    loc.insert("wght".to_owned(), 400);
    loc.insert("wdth".to_owned(), 100);
    assert_eq!(loc.get("wght"), 400);
    assert_eq!(loc.get("wdth"), 100);
    assert_eq!(loc.get("opsz"), 0);
    loc.insert("wght".to_owned(), 700); // shadows the earlier entry
    assert_eq!(loc.get("wght"), 700);
}

#[test]
fn axes_tightened_to_masters() {
    let mut f = Font::new();
    f.axes.push(Axis::new("Weight".to_owned(), "wght".to_owned()));
    f.axes.push(Axis::new("Width".to_owned(), "wdth".to_owned()));
    f.masters
        .push(master_at("Light", "m1", &[("wght", 300), ("wdth", 80)]));
    f.masters
        .push(master_at("Regular", "m2", &[("wght", 400), ("wdth", 100)]));
    f.masters.push(master_at("Bold", "m3", &[("wght", 700)]));
    let dm = "m2".to_owned();
    fixup_axes(&mut f, Some(&dm));
    assert_eq!(f.axes[0].min, Some(300));
    assert_eq!(f.axes[0].max, Some(700));
    assert_eq!(f.axes[0].default, Some(400));
    // the bold master names no wdth value, which reads as 0
    assert_eq!(f.axes[1].min, Some(0));
    assert_eq!(f.axes[1].max, Some(100));
    assert_eq!(f.axes[1].default, Some(100));
    assert_eq!(f.axes[0].name, "Weight");
    assert_eq!(f.masters.len(), 3);
}

#[test]
fn axes_keep_known_bounds() {
    let mut f = Font::new();
    let mut a = Axis::new("Weight".to_owned(), "wght".to_owned());
    a.min = Some(100);
    a.max = Some(200);
    a.default = Some(150);
    f.axes.push(a);
    f.masters.push(master_at("Regular", "m1", &[("wght", 400)]));
    fixup_axes(&mut f, None);
    // the known minimum was lower than any master, so it stays
    assert_eq!(f.axes[0].min, Some(100));
    assert_eq!(f.axes[0].max, Some(400));
    // no default master named: the default is untouched
    assert_eq!(f.axes[0].default, Some(150));
}

#[test]
fn mapping_carries_bounds_to_userspace() {
    let mut f = Font::new();
    let mut a = Axis::new("Weight".to_owned(), "wght".to_owned());
    // (userspace, designspace) knots
    a.map = Some(vec![(100, 0), (400, 500), (900, 1000)]);
    a.min = Some(0);
    a.default = Some(500);
    a.max = Some(1000);
    f.axes.push(a);
    fixup_axis_mappings(&mut f);
    assert_eq!(f.axes[0].min, Some(100));
    assert_eq!(f.axes[0].default, Some(400));
    assert_eq!(f.axes[0].max, Some(900));
}

#[test]
fn mapping_interpolates_and_clamps() {
    let mut a = Axis::new("Weight".to_owned(), "wght".to_owned());
    a.map = Some(vec![(100, 0), (400, 500), (900, 1000)]);
    // exactly between the first two knots: 100 + 250*300/500
    assert_eq!(a.designspace_to_userspace(250), 250);
    assert_eq!(a.designspace_to_userspace(750), 650);
    assert_eq!(a.designspace_to_userspace(0), 100);
    assert_eq!(a.designspace_to_userspace(500), 400);
    assert_eq!(a.designspace_to_userspace(1000), 900);
    // clamped at the outermost knots
    assert_eq!(a.designspace_to_userspace(-50), 100);
    assert_eq!(a.designspace_to_userspace(4000), 900);
    // an unmapped axis sends a value to itself
    let plain = Axis::new("Width".to_owned(), "wdth".to_owned());
    assert_eq!(plain.designspace_to_userspace(123), 123);
}

#[test]
fn incomplete_bounds_left_alone() {
    let mut f = Font::new();
    let mut a = Axis::new("Weight".to_owned(), "wght".to_owned());
    a.map = Some(vec![(100, 0), (900, 1000)]);
    a.min = Some(0);
    // no default, no max: bounds() is None and nothing changes
    f.axes.push(a);
    let mut b = Axis::new("Width".to_owned(), "wdth".to_owned());
    b.min = Some(50);
    b.default = Some(100);
    b.max = Some(200);
    // no map: nothing changes either
    f.axes.push(b);
    fixup_axis_mappings(&mut f);
    assert_eq!(f.axes[0].min, Some(0));
    assert_eq!(f.axes[0].default, None);
    assert_eq!(f.axes[1].min, Some(50));
    assert_eq!(f.axes[1].max, Some(200));
    assert!(f.axes[0].bounds().is_none());
    assert_eq!(f.axes[1].bounds(), Some((50, 100, 200)));
}
