//! The optimization plugins.

pub mod remove_empty_text;
pub mod remove_empty_containers;
pub mod remove_doctype;
pub mod remove_empty_attrs;
pub mod remove_comments;
pub mod convert_ellipse_to_circle;
pub mod remove_desc;
pub mod remove_elements_by_attr;
pub mod minify_styles;
pub mod prefix_ids;
pub mod cleanup_attrs;
pub mod cleanup_enable_background;
pub mod add_attributes_to_svg_element;
pub mod add_classes_to_svg_element;
pub mod remove_editors_ns_data;
pub mod remove_attrs;
pub mod remove_deprecated_attrs;
pub mod merge_styles;
pub mod cleanup_ids;
pub mod collapse_groups;
pub mod convert_colors;
pub mod convert_style_to_attrs;
pub mod convert_one_stop_gradients;
pub mod cleanup_list_of_values;
pub mod cleanup_numeric_values;
pub mod remove_dimensions;
