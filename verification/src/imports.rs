//! The components that show what an import costs.

use vstd::prelude::*;

verus! {

/// A component to expand, with the label that its cost is printed under.
pub struct ImportCase {
    pub label: &'static str,
    pub body: String,
}

/// An import of many widgets.
pub open spec fn std_import() -> Seq<char> {
    "import { Button, Slider, ComboBox, CheckBox, LineEdit, ProgressIndicator, VerticalBox, HorizontalBox, GroupBox, TabWidget } from \"std-widgets.slint\";"@
}

/// A component that needs no widget.
pub open spec fn plain_component() -> Seq<char> {
    "export component Bench { Rectangle { width: 10px; } }"@
}

/// A component that needs two of the widgets.
pub open spec fn widget_component() -> Seq<char> {
    "export component Bench { VerticalBox { Button { text: \"x\"; } } }"@
}

/// The import on a line of its own, and a component behind it.
fn behind_import(component: &str) -> (body: String)
    ensures
        body@ == std_import() + "\n"@ + component@,
{
    let mut body = String::from_str(
        "import { Button, Slider, ComboBox, CheckBox, LineEdit, ProgressIndicator, VerticalBox, HorizontalBox, GroupBox, TabWidget } from \"std-widgets.slint\";",
    );
    body.append("\n");
    body.append(component);
    body
}

/// The components to compare. The first is the baseline: a component without
/// imports. The second is the same component behind an import that it does not
/// use, so that it costs more by the import alone. The third uses the import.
pub fn import_cases() -> (cases: Vec<ImportCase>)
    ensures
        cases@.len() == 3,
        cases@[0].label@ == "no-import    "@,
        cases@[0].body@ == plain_component(),
        cases@[1].label@ == "import-unused"@,
        cases@[1].body@ == std_import() + "\n"@ + cases@[0].body@,
        cases@[2].label@ == "import-used  "@,
        cases@[2].body@ == std_import() + "\n"@ + widget_component(),
{
    let plain = "export component Bench { Rectangle { width: 10px; } }";
    let widgets = "export component Bench { VerticalBox { Button { text: \"x\"; } } }";
    vec![
        ImportCase { label: "no-import    ", body: plain.to_owned() },
        ImportCase { label: "import-unused", body: behind_import(plain) },
        ImportCase { label: "import-used  ", body: behind_import(widgets) },
    ]
}

} // verus!
