//! Planning an item: the folder `category/item_name` under the root
//! directory, and the two files copied into it under fixed names.
use vstd::prelude::*;
use vstd::string::StringExecFns;

verus! {

/// The name under which an item's data file is stored.
pub open spec fn data_file_name() -> Seq<char> {
    "data.txt"@
}

/// The name under which an item's image is stored, whatever its extension was.
pub open spec fn image_file_name() -> Seq<char> {
    "image.png"@
}

/// A white-space character: one of Unicode's White_Space set.
pub open spec fn is_space(c: char) -> bool {
    let n = c as int;
    (9 <= n <= 13) || n == 32 || n == 0x85 || n == 0xA0 || n == 0x1680 || (0x2000 <= n <= 0x200A)
        || n == 0x2028 || n == 0x2029 || n == 0x202F || n == 0x205F || n == 0x3000
}

/// `s` holds no character but white space: it is empty once trimmed.
pub open spec fn is_blank(s: Seq<char>) -> bool {
    forall|i: int| 0 <= i < s.len() ==> is_space(#[trigger] s[i])
}

/// Whether `c` is white space.
pub fn char_is_space(c: char) -> (r: bool)
    ensures
        r == is_space(c),
{
    let n = c as u32;
    (9 <= n && n <= 13) || n == 32 || n == 0x85 || n == 0xA0 || n == 0x1680 || (0x2000 <= n && n
        <= 0x200A) || n == 0x2028 || n == 0x2029 || n == 0x202F || n == 0x205F || n == 0x3000
}

/// Whether `s` is empty once white space is trimmed from both ends.
pub fn str_is_blank(s: &str) -> (r: bool)
    ensures
        r == is_blank(s@),
{
    let n = s.unicode_len();
    let mut i: usize = 0;
    while i < n
        invariant
            n == s@.len(),
            i <= n,
            forall|k: int| 0 <= k < i ==> is_space(#[trigger] s@[k]),
        decreases n - i,
    {
        if !char_is_space(s.get_char(i)) {
            return false;
        }
        i = i + 1;
    }
    true
}

/// Why an item cannot be created.
#[derive(Debug, Clone, Copy, PartialEq, Eq)]
pub enum ItemError {
    /// No category was chosen, or its name is empty.
    NoCategory,
    /// The item's name is empty once trimmed.
    BlankName,
    /// No data file was chosen.
    NoDataFile,
    /// No image was chosen.
    NoImageFile,
}

/// One copy: the chosen source file and its name inside the item's folder.
pub struct FileCopy {
    pub source: String,
    pub target: String,
}

/// What creating an item does: make the folder whose path segments under the
/// root directory are `folder`, then make each copy into it.
pub struct ItemPlan {
    pub folder: Vec<String>,
    pub copies: Vec<FileCopy>,
}

/// The error that planning gives, if any, checking in order the category,
/// the name, the data file and the image.
pub open spec fn plan_error(
    category: Option<Seq<char>>,
    item_name: Seq<char>,
    data_file: Option<Seq<char>>,
    image_file: Option<Seq<char>>,
) -> Option<ItemError> {
    if category is None || category->0.len() == 0 {
        Some(ItemError::NoCategory)
    } else if is_blank(item_name) {
        Some(ItemError::BlankName)
    } else if data_file is None {
        Some(ItemError::NoDataFile)
    } else if image_file is None {
        Some(ItemError::NoImageFile)
    } else {
        None
    }
}

pub open spec fn opt_view(o: Option<String>) -> Option<Seq<char>> {
    match o {
        Some(s) => Some(s@),
        None => None,
    }
}

/// Plans the item `item_name` of `category`: its folder is
/// `category/item_name`, the data file is copied in as `data.txt` and the
/// image as `image.png`.
pub fn plan_item(
    category: &Option<String>,
    item_name: &str,
    data_file: &Option<String>,
    image_file: &Option<String>,
) -> (r: Result<ItemPlan, ItemError>)
    ensures
        match plan_error(opt_view(*category), item_name@, opt_view(*data_file), opt_view(*image_file)) {
            Some(e) => r == Err::<ItemPlan, ItemError>(e),
            None => r matches Ok(plan) && plan.folder@.len() == 2 && plan.folder@[0]@ == category->0@
                && plan.folder@[1]@ == item_name@ && plan.copies@.len() == 2
                && plan.copies@[0].source@ == data_file->0@ && plan.copies@[0].target@
                == data_file_name() && plan.copies@[1].source@ == image_file->0@
                && plan.copies@[1].target@ == image_file_name(),
        },
{
    let category = match category {
        Some(c) => c,
        None => return Err(ItemError::NoCategory),
    };
    if category.as_str().unicode_len() == 0 {
        return Err(ItemError::NoCategory);
    }
    if str_is_blank(item_name) {
        return Err(ItemError::BlankName);
    }
    let data_file = match data_file {
        Some(d) => d,
        None => return Err(ItemError::NoDataFile),
    };
    let image_file = match image_file {
        Some(i) => i,
        None => return Err(ItemError::NoImageFile),
    };
    let mut folder: Vec<String> = Vec::new();
    folder.push(category.clone());
    folder.push(item_name.to_string());
    let mut copies: Vec<FileCopy> = Vec::new();
    copies.push(FileCopy { source: data_file.clone(), target: String::from_str("data.txt") });
    copies.push(FileCopy { source: image_file.clone(), target: String::from_str("image.png") });
    Ok(ItemPlan { folder, copies })
}

} // verus!
