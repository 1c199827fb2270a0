use sova_desktop::settings::ScopeBarMode;

#[test]
fn scope_bar_mode_cycles_through_three_modes() {
    let m = ScopeBarMode::Scope;
    assert_eq!(m.next(), ScopeBarMode::Spectrogram);
    assert_eq!(m.next().next(), ScopeBarMode::Both);
    assert_eq!(m.next().next().next(), ScopeBarMode::Scope);
}
