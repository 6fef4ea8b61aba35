use yawc::config::binds::{parse_key_bind, KeyBind, ModMask};

fn mods_and_key(s: &str) -> Result<(u32, String), String> {
    parse_key_bind(s).map(|p| (p.mods.bits(), p.key))
}

#[test]
fn modifiers_and_key() {
    assert_eq!(mods_and_key("Super+Shift+q"), Ok((8 | 1, "q".to_string())));
    assert_eq!(mods_and_key("Ctrl+Alt+Delete"), Ok((2 | 4, "Delete".to_string())));
    assert_eq!(mods_and_key("Control+Logo+Return"), Ok((2 | 8, "Return".to_string())));
    assert_eq!(mods_and_key("Mod+Super+x"), Ok((8, "x".to_string())));
    assert_eq!(mods_and_key("q+Shift"), Ok((1, "q".to_string())));
    assert_eq!(mods_and_key("F1"), Ok((0, "F1".to_string())));
}

#[test]
fn empty_parts_name_an_empty_key() {
    assert_eq!(mods_and_key(""), Ok((0, "".to_string())));
    assert_eq!(mods_and_key("Shift+"), Ok((1, "".to_string())));
}

#[test]
fn binding_errors() {
    assert_eq!(mods_and_key("a+b"), Err("multiple keys in bind: a+b".to_string()));
    assert_eq!(mods_and_key("Shift+a+b+c"), Err("multiple keys in bind: Shift+a+b+c".to_string()));
    assert_eq!(mods_and_key("Super+Shift"), Err("no key specified".to_string()));
    assert_eq!(mods_and_key("shift+q+x"), Err("multiple keys in bind: shift+q+x".to_string()));
    assert_eq!(mods_and_key("+"), Err("multiple keys in bind: +".to_string()));
}

#[test]
fn key_bind_from_parts() {
    let parts = parse_key_bind("Alt+Tab").ok().unwrap();
    let k = KeyBind::from_parts(parts, 0xff09);
    assert_eq!(k, KeyBind { mods: ModMask::alt(), sym: 0xff09 });
}

#[test]
fn mod_mask_operations() {
    let mut m = ModMask::empty();
    assert_eq!(m.bits(), 0);
    m.insert(ModMask::shift());
    m.insert(ModMask::shift());
    assert_eq!(m.bits(), 1);
    m.insert(ModMask::super_key());
    assert_eq!(m.bits(), 9);
    m.insert(ModMask::ctrl());
    m.insert(ModMask::alt());
    assert_eq!(m.bits(), 15);
}

#[test]
fn modifier_prefix_adds_its_bit() {
    for (name, bit) in [("Shift", 1u32), ("Ctrl", 2), ("Control", 2), ("Alt", 4), ("Mod", 8), ("Super", 8), ("Logo", 8)] {
        for s in ["q", "Shift+q", "Alt+F4", "", "Ctrl"] {
            let with = mods_and_key(&format!("{name}+{s}"));
            match mods_and_key(s) {
                Ok((mods, key)) => assert_eq!(with, Ok((bit | mods, key))),
                Err(e) => assert_eq!(with.err().map(|_| e == "no key specified"), Some(true)),
            }
        }
    }
}

#[test]
fn order_and_repeats_do_not_matter() {
    assert_eq!(mods_and_key("Shift+q+Super+Shift"), mods_and_key("Super+q+Shift"));
    assert_eq!(mods_and_key("q+Ctrl+Alt"), mods_and_key("Alt+Ctrl+q"));
    assert_eq!(mods_and_key("Mod+Mod+Logo+Return"), Ok((8, "Return".to_string())));
    assert_eq!(mods_and_key("Shift+Shift"), mods_and_key("Shift"));
    assert!(mods_and_key("x+Alt+y").is_err() && mods_and_key("Alt+y+x").is_err());
}
