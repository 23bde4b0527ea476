//! Style-class helpers for the two display themes. Each returns a fixed
//! class string chosen by the theme (and, for tabs, the active flag).

use vstd::prelude::*;

verus! {

pub open spec fn spec_input_style(is_dark: bool) -> Seq<char> {
    if is_dark {
        "border p-2 rounded w-full bg-gray-700 border-gray-600 text-white placeholder-gray-400"@
    } else {
        "border p-2 rounded w-full bg-white border-gray-300 text-black placeholder-gray-500"@
    }
}

pub fn get_input_style(is_dark: bool) -> (r: &'static str)
    ensures
        r@ == spec_input_style(is_dark),
{
    if is_dark {
        "border p-2 rounded w-full bg-gray-700 border-gray-600 text-white placeholder-gray-400"
    } else {
        "border p-2 rounded w-full bg-white border-gray-300 text-black placeholder-gray-500"
    }
}

pub open spec fn spec_box_style(is_dark: bool) -> Seq<char> {
    if is_dark {
        "p-4 rounded-lg border bg-gray-700 border-gray-600"@
    } else {
        "p-4 rounded-lg border bg-gray-50 border-gray-200"@
    }
}

pub fn get_box_style(is_dark: bool) -> (r: &'static str)
    ensures
        r@ == spec_box_style(is_dark),
{
    if is_dark {
        "p-4 rounded-lg border bg-gray-700 border-gray-600"
    } else {
        "p-4 rounded-lg border bg-gray-50 border-gray-200"
    }
}

pub open spec fn spec_main_style(dark: bool) -> Seq<char> {
    if dark {
        "min-h-screen p-4 md:p-8 font-sans transition-colors duration-300 bg-slate-900 text-slate-100 relative"@
    } else {
        "min-h-screen p-4 md:p-8 font-sans transition-colors duration-300 bg-slate-50 text-slate-800 relative"@
    }
}

pub fn get_main_style(dark: bool) -> (r: &'static str)
    ensures
        r@ == spec_main_style(dark),
{
    if dark {
        "min-h-screen p-4 md:p-8 font-sans transition-colors duration-300 bg-slate-900 text-slate-100 relative"
    } else {
        "min-h-screen p-4 md:p-8 font-sans transition-colors duration-300 bg-slate-50 text-slate-800 relative"
    }
}

pub open spec fn spec_card_style(dark: bool) -> Seq<char> {
    if dark {
        "max-w-5xl mx-auto rounded-3xl shadow-2xl overflow-hidden p-6 md:p-10 transition-colors duration-300 bg-slate-800 border border-slate-700"@
    } else {
        "max-w-5xl mx-auto rounded-3xl shadow-xl overflow-hidden p-6 md:p-10 transition-colors duration-300 bg-white border border-slate-100"@
    }
}

pub fn get_card_style(dark: bool) -> (r: &'static str)
    ensures
        r@ == spec_card_style(dark),
{
    if dark {
        "max-w-5xl mx-auto rounded-3xl shadow-2xl overflow-hidden p-6 md:p-10 transition-colors duration-300 bg-slate-800 border border-slate-700"
    } else {
        "max-w-5xl mx-auto rounded-3xl shadow-xl overflow-hidden p-6 md:p-10 transition-colors duration-300 bg-white border border-slate-100"
    }
}

pub open spec fn spec_tab_style(active: bool, dark: bool) -> Seq<char> {
    if active {
        if dark {
            "flex-1 py-3 px-4 font-bold text-emerald-400 border-b-4 border-emerald-500"@
        } else {
            "flex-1 py-3 px-4 font-bold text-emerald-600 border-b-4 border-emerald-600"@
        }
    } else {
        "flex-1 py-3 px-4 font-bold text-slate-400 hover:text-slate-500 transition"@
    }
}

pub fn get_tab_style(active: bool, dark: bool) -> (r: &'static str)
    ensures
        r@ == spec_tab_style(active, dark),
{
    if active {
        if dark {
            "flex-1 py-3 px-4 font-bold text-emerald-400 border-b-4 border-emerald-500"
        } else {
            "flex-1 py-3 px-4 font-bold text-emerald-600 border-b-4 border-emerald-600"
        }
    } else {
        "flex-1 py-3 px-4 font-bold text-slate-400 hover:text-slate-500 transition"
    }
}

} // verus!
