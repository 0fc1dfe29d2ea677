//! Pages: the file header, the header of a b-tree page, and the pages of a
//! table b-tree with their cells.
//!
//! The first page of a file starts with the file header of 100 bytes, and the
//! header of its b-tree page follows. The buffer of a page starts at the
//! header of the b-tree page, so the buffer of the first page lacks those 100
//! bytes, while the offsets that the first page stores count from the start of
//! the page: 100 is taken from each.

use crate::cell::{decode_interior_cell, decode_leaf_cell, Cell, CellModel, TableInteriorCell};
use crate::utils::{be_unsigned, lemma_be_unsigned_bounded, lemma_byte_limits, read_be};
use vstd::prelude::*;
use vstd::slice::slice_subrange;

verus! {

/// What can go wrong while a database file is read and decoded.
#[derive(Debug, Clone, Copy, PartialEq, Eq, Structural)]
pub enum MyError {
    /// The file could not be read.
    Io,
    /// A declared length or offset reaches past the bytes at hand.
    Truncated,
    /// The first byte of a page header names no kind of b-tree page.
    InvalidPageType,
    /// A record header holds a reserved serial type, or its layout is inconsistent.
    InvalidSerialType,
    /// The bytes of a text column are not UTF-8.
    Utf8,
    /// The payload of a cell continues on overflow pages.
    Overflow,
}

/// The 100 bytes at the start of a database file.
#[derive(Debug, Clone, Copy, PartialEq, Eq, Structural)]
pub struct FileHeader {
    /// The size of a page in bytes as the file stores it: a power of two from
    /// 512 to 32768, or 1 for 65536.
    pub page_size: u16,
    /// The size of the file in pages.
    pub page_count: u32,
}

impl FileHeader {
    /// The number of bytes that the file header takes at the start of the file.
    pub const FILE_HEADER_SIZE: usize = 100;

    /// The size of a page in bytes: the stored value, where 1 stands for 65536.
    pub open spec fn spec_page_bytes(&self) -> int {
        if self.page_size == 1 {
            65536
        } else {
            self.page_size as int
        }
    }

    /// Decodes the file header from the first bytes of the file: the page size
    /// from the two bytes at offset 16 and the number of pages from the four
    /// bytes at offset 28, both big-endian. Nothing else is looked at.
    pub fn from(header: &[u8]) -> (r: Result<FileHeader, MyError>)
        ensures
            r == decode_file_header(header@),
    {
        if header.len() < Self::FILE_HEADER_SIZE {
            return Err(MyError::Truncated);
        }
        proof {
            lemma_byte_limits();
            lemma_be_unsigned_bounded(header@.subrange(16, 18));
            lemma_be_unsigned_bounded(header@.subrange(28, 32));
        }
        Ok(
            FileHeader {
                page_size: read_be(header, 16, 2) as u16,
                page_count: read_be(header, 28, 4) as u32,
            },
        )
    }

    /// The size of a page in bytes: the stored value, where 1 stands for 65536.
    pub fn page_bytes(&self) -> (r: u32)
        ensures
            r == self.spec_page_bytes(),
    {
        if self.page_size == 1 {
            65536
        } else {
            self.page_size as u32
        }
    }
}

/// The file header that `header` starts with; fewer than 100 bytes give
/// `MyError::Truncated`.
pub open spec fn decode_file_header(header: Seq<u8>) -> Result<FileHeader, MyError> {
    if header.len() < 100 {
        Err(MyError::Truncated)
    } else {
        Ok(
            FileHeader {
                page_size: be_unsigned(header.subrange(16, 18)) as u16,
                page_count: be_unsigned(header.subrange(28, 32)) as u32,
            },
        )
    }
}

/// The four kinds of b-tree page.
#[derive(Debug, Clone, Copy, PartialEq, Eq, Structural)]
pub enum PageType {
    TableLeaf,
    IndexLeaf,
    TableInterior,
    IndexInterior,
}

/// The kind of page that the first byte of a page header names, if any.
pub open spec fn page_type_of(t: u8) -> Option<PageType> {
    if t == 2 {
        Some(PageType::IndexInterior)
    } else if t == 5 {
        Some(PageType::TableInterior)
    } else if t == 10 {
        Some(PageType::IndexLeaf)
    } else if t == 13 {
        Some(PageType::TableLeaf)
    } else {
        None
    }
}

impl PageType {
    /// Whether pages of this kind have children.
    pub open spec fn spec_is_interior(&self) -> bool {
        *self == PageType::TableInterior || *self == PageType::IndexInterior
    }

    /// Whether pages of this kind have children.
    pub fn is_interior(&self) -> (r: bool)
        ensures
            r == self.spec_is_interior(),
    {
        match self {
            PageType::TableInterior | PageType::IndexInterior => true,
            _ => false,
        }
    }
}

/// The header of a b-tree page.
#[derive(Debug, Clone, Copy, PartialEq, Eq, Structural)]
pub struct PageHeader {
    pub page_type: PageType,
    pub first_freeblock: u16,
    pub cell_count: u16,
    /// Where the cell content starts, counted from the start of the buffer.
    pub cell_content_offset: u32,
    pub fragmented_bytes_count: u8,
    /// The rightmost child; interior pages have one, leaf pages none.
    pub rightmost_pointer: Option<u32>,
}

/// What is taken from the offsets that page `page_num` stores: the 100 bytes of
/// the file header on page 1, nothing on any other page.
pub open spec fn page_shift(page_num: int) -> int {
    if page_num == 1 {
        100
    } else {
        0
    }
}

/// The number of bytes that the header of a page of kind `page_type` takes:
/// 12 where there is a rightmost pointer, 8 where there is none.
pub open spec fn header_span(page_type: PageType) -> int {
    if page_type.spec_is_interior() {
        12
    } else {
        8
    }
}

/// The offset of the cell content that the two bytes from offset 5 state:
/// zero stands for 65536.
pub open spec fn stored_content_offset(buffer: Seq<u8>) -> int {
    if be_unsigned(buffer.subrange(5, 7)) == 0 {
        65536
    } else {
        be_unsigned(buffer.subrange(5, 7)) as int
    }
}

/// The header of page `page_num` that `buffer` starts with.
///
/// | offset | bytes | field |
/// |---|---|---|
/// | 0 | 1 | kind of page: 2, 5, 10 or 13 |
/// | 1 | 2 | first freeblock |
/// | 3 | 2 | number of cells |
/// | 5 | 2 | offset of the cell content, zero for 65536 |
/// | 7 | 1 | number of fragmented free bytes |
/// | 8 | 4 | rightmost pointer, on interior pages only |
///
/// The kind of page is looked at first: a first byte that names none gives
/// `MyError::InvalidPageType` however short `buffer` is. `MyError::Truncated`
/// stands for a `buffer` that is empty or ends before the header does, and for
/// an offset of the cell content on page 1 that lies in the file header.
pub open spec fn decode_page_header(buffer: Seq<u8>, page_num: int) -> Result<PageHeader, MyError> {
    if buffer.len() == 0 {
        Err(MyError::Truncated)
    } else if page_type_of(buffer[0]) is None {
        Err(MyError::InvalidPageType)
    } else if buffer.len() < header_span(page_type_of(buffer[0])->Some_0) {
        Err(MyError::Truncated)
    } else if stored_content_offset(buffer) < page_shift(page_num) {
        Err(MyError::Truncated)
    } else {
        let page_type = page_type_of(buffer[0])->Some_0;
        Ok(
            PageHeader {
                page_type,
                first_freeblock: be_unsigned(buffer.subrange(1, 3)) as u16,
                cell_count: be_unsigned(buffer.subrange(3, 5)) as u16,
                cell_content_offset: (stored_content_offset(buffer) - page_shift(page_num)) as u32,
                fragmented_bytes_count: buffer[7],
                rightmost_pointer: if page_type.spec_is_interior() {
                    Some(be_unsigned(buffer.subrange(8, 12)) as u32)
                } else {
                    None
                },
            },
        )
    }
}

impl PageHeader {
    /// Decodes the header of page `page_num` from the start of `buffer`. Pages
    /// are numbered from 1.
    pub fn from(buffer: &[u8], page_num: u64) -> (r: Result<PageHeader, MyError>)
        ensures
            r == decode_page_header(buffer@, page_num as int),
    {
        if buffer.len() == 0 {
            return Err(MyError::Truncated);
        }
        let page_type = match crate::utils::get_page_type(buffer[0]) {
            Ok(t) => t,
            Err(e) => {
                return Err(e);
            },
        };
        let interior = page_type.is_interior();
        if buffer.len() < 8 || (interior && buffer.len() < 12) {
            return Err(MyError::Truncated);
        }
        proof {
            lemma_byte_limits();
            lemma_be_unsigned_bounded(buffer@.subrange(1, 3));
            lemma_be_unsigned_bounded(buffer@.subrange(3, 5));
            lemma_be_unsigned_bounded(buffer@.subrange(5, 7));
            if interior {
                lemma_be_unsigned_bounded(buffer@.subrange(8, 12));
            }
        }
        let raw: u64 = read_be(buffer, 5, 2);
        let stored: u64 = if raw == 0 {
            65536
        } else {
            raw
        };
        let shift: u64 = if page_num == 1 {
            100
        } else {
            0
        };
        if stored < shift {
            return Err(MyError::Truncated);
        }
        let rightmost_pointer: Option<u32> = if interior {
            Some(read_be(buffer, 8, 4) as u32)
        } else {
            None
        };
        Ok(
            PageHeader {
                page_type,
                first_freeblock: read_be(buffer, 1, 2) as u16,
                cell_count: read_be(buffer, 3, 2) as u16,
                cell_content_offset: (stored - shift) as u32,
                fragmented_bytes_count: buffer[7],
                rightmost_pointer,
            },
        )
    }

    /// The size of the header, where the cell pointers start: 12 bytes with a
    /// rightmost pointer, 8 without.
    pub open spec fn spec_header_size(&self) -> int {
        if self.rightmost_pointer is Some {
            12
        } else {
            8
        }
    }

    /// The size of the header, where the cell pointers start: 12 bytes with a
    /// rightmost pointer, 8 without.
    pub fn get_header_size(&self) -> (r: usize)
        ensures
            r == self.spec_header_size(),
    {
        if self.rightmost_pointer.is_some() {
            12
        } else {
            8
        }
    }
}

/// The `i`-th cell pointer of a page whose header takes `header_size` bytes:
/// the big-endian number in the two bytes at `header_size + 2 * i`.
pub open spec fn cell_pointer(buffer: Seq<u8>, header_size: int, i: int) -> int {
    be_unsigned(buffer.subrange(header_size + 2 * i, header_size + 2 * i + 2)) as int
}

/// The first `count` cell pointers of a page, as the page stores them.
pub open spec fn cell_pointers(buffer: Seq<u8>, header_size: int, count: int) -> Seq<u16> {
    Seq::new(count as nat, |i: int| cell_pointer(buffer, header_size, i) as u16)
}

/// Where in `buffer` the `i`-th cell of page `page_num` starts.
pub open spec fn cell_start(buffer: Seq<u8>, header_size: int, i: int, page_num: int) -> int {
    cell_pointer(buffer, header_size, i) - page_shift(page_num)
}

/// The cells from the `i`-th to the `count`-th of table leaf page `page_num`,
/// in the order of the cell pointers. A cell pointer that leads outside
/// `buffer` gives `MyError::Truncated`; the first cell that cannot be decoded
/// decides the error.
pub open spec fn decode_leaf_cells(
    buffer: Seq<u8>,
    page_num: int,
    usable_size: int,
    count: int,
    i: int,
) -> Result<Seq<CellModel>, MyError>
    decreases count - i,
{
    if i >= count {
        Ok(Seq::empty())
    } else {
        let start = cell_start(buffer, 8, i, page_num);
        if start < 0 || start > buffer.len() {
            Err(MyError::Truncated)
        } else {
            match decode_leaf_cell(buffer.subrange(start, buffer.len() as int), usable_size) {
                Err(e) => Err(e),
                Ok(cell) => match decode_leaf_cells(buffer, page_num, usable_size, count, i + 1) {
                    Err(e) => Err(e),
                    Ok(rest) => Ok(seq![cell] + rest),
                },
            }
        }
    }
}

/// The cells from the `i`-th to the `count`-th of table interior page
/// `page_num`, in the order of the cell pointers.
pub open spec fn decode_interior_cells(buffer: Seq<u8>, page_num: int, count: int, i: int) -> Result<
    Seq<TableInteriorCell>,
    MyError,
>
    decreases count - i,
{
    if i >= count {
        Ok(Seq::empty())
    } else {
        let start = cell_start(buffer, 12, i, page_num);
        if start < 0 || start > buffer.len() {
            Err(MyError::Truncated)
        } else {
            match decode_interior_cell(buffer.subrange(start, buffer.len() as int)) {
                Err(e) => Err(e),
                Ok(cell) => match decode_interior_cells(buffer, page_num, count, i + 1) {
                    Err(e) => Err(e),
                    Ok(rest) => Ok(seq![cell] + rest),
                },
            }
        }
    }
}

/// A table leaf page with its cells decoded.
#[derive(Debug, PartialEq, Eq)]
pub struct TableLeafPage {
    pub page_header: PageHeader,
    pub page_num: u64,
    /// The cell pointers as the page stores them, counted from the start of
    /// the page.
    pub cell_pointers: Vec<u16>,
    /// The cells, in the order of the cell pointers.
    pub cells: Vec<Cell>,
}

/// What a `TableLeafPage` stands for.
pub struct LeafPageModel {
    pub page_header: PageHeader,
    pub page_num: int,
    pub cell_pointers: Seq<u16>,
    pub cells: Seq<CellModel>,
}

impl View for TableLeafPage {
    type V = LeafPageModel;

    open spec fn view(&self) -> LeafPageModel {
        LeafPageModel {
            page_header: self.page_header,
            page_num: self.page_num as int,
            cell_pointers: self.cell_pointers@,
            cells: self.cells@.map_values(|c: Cell| c@),
        }
    }
}

/// A table interior page with its cells decoded.
#[derive(Debug, PartialEq, Eq)]
pub struct TableInteriorPage {
    pub page_header: PageHeader,
    pub page_num: u64,
    /// The cell pointers as the page stores them, counted from the start of
    /// the page.
    pub cell_pointers: Vec<u16>,
    /// The cells, in the order of the cell pointers.
    pub cells: Vec<TableInteriorCell>,
}

/// What a `TableInteriorPage` stands for.
pub struct InteriorPageModel {
    pub page_header: PageHeader,
    pub page_num: int,
    pub cell_pointers: Seq<u16>,
    pub cells: Seq<TableInteriorCell>,
}

impl View for TableInteriorPage {
    type V = InteriorPageModel;

    open spec fn view(&self) -> InteriorPageModel {
        InteriorPageModel {
            page_header: self.page_header,
            page_num: self.page_num as int,
            cell_pointers: self.cell_pointers@,
            cells: self.cells@,
        }
    }
}

/// The table leaf page `page_num` that `buffer` holds, in a file whose pages
/// have `page_size` usable bytes.
///
/// The header comes first; a page of another kind gives
/// `MyError::InvalidPageType`. The cell pointers follow the header at offset 8,
/// two bytes each; `MyError::Truncated` stands for a `buffer` that ends before
/// they do. Then come the cells, as `decode_leaf_cells` has them.
pub open spec fn decode_leaf_page(buffer: Seq<u8>, page_num: int, page_size: int) -> Result<
    LeafPageModel,
    MyError,
> {
    match decode_page_header(buffer, page_num) {
        Err(e) => Err(e),
        Ok(page_header) => if page_header.page_type != PageType::TableLeaf {
            Err(MyError::InvalidPageType)
        } else if 8 + 2 * page_header.cell_count > buffer.len() {
            Err(MyError::Truncated)
        } else {
            match decode_leaf_cells(buffer, page_num, page_size, page_header.cell_count as int, 0) {
                Err(e) => Err(e),
                Ok(cells) => Ok(
                    LeafPageModel {
                        page_header,
                        page_num,
                        cell_pointers: cell_pointers(buffer, 8, page_header.cell_count as int),
                        cells,
                    },
                ),
            }
        },
    }
}

/// The table interior page `page_num` that `buffer` holds. Its cell pointers
/// follow the header at offset 12.
pub open spec fn decode_interior_page(buffer: Seq<u8>, page_num: int) -> Result<
    InteriorPageModel,
    MyError,
> {
    match decode_page_header(buffer, page_num) {
        Err(e) => Err(e),
        Ok(page_header) => if page_header.page_type != PageType::TableInterior {
            Err(MyError::InvalidPageType)
        } else if 12 + 2 * page_header.cell_count > buffer.len() {
            Err(MyError::Truncated)
        } else {
            match decode_interior_cells(buffer, page_num, page_header.cell_count as int, 0) {
                Err(e) => Err(e),
                Ok(cells) => Ok(
                    InteriorPageModel {
                        page_header,
                        page_num,
                        cell_pointers: cell_pointers(buffer, 12, page_header.cell_count as int),
                        cells,
                    },
                ),
            }
        },
    }
}

/// Reads the `count` cell pointers that follow a header of `header_size`
/// bytes.
fn read_cell_pointers(buffer: &[u8], header_size: usize, count: u16) -> (r: Vec<u16>)
    requires
        header_size <= 12,
        header_size + 2 * count <= buffer@.len(),
    ensures
        r@ == cell_pointers(buffer@, header_size as int, count as int),
{
    let len: usize = buffer.len();
    let mut pointers: Vec<u16> = Vec::new();
    let mut i: usize = 0;
    while i < count as usize
        invariant
            i <= count,
            header_size <= 12,
            header_size + 2 * count <= buffer@.len() == len,
            pointers@ == cell_pointers(buffer@, header_size as int, i as int),
        decreases count - i,
    {
        proof {
            lemma_byte_limits();
            lemma_be_unsigned_bounded(
                buffer@.subrange(header_size + 2 * i, header_size + 2 * i + 2),
            );
        }
        let pointer = read_be(buffer, header_size + 2 * i, 2) as u16;
        pointers.push(pointer);
        i += 1;
        assert(pointers@ =~= cell_pointers(buffer@, header_size as int, i as int));
    }
    pointers
}

/// Where in a buffer of `len` bytes the cell starts that `pointer` leads to on
/// page `page_num`, if it starts in the buffer.
fn locate_cell(pointer: u16, page_num: u64, len: usize) -> (r: Option<usize>)
    ensures
        match r {
            Some(start) => start == pointer - page_shift(page_num as int) && start <= len,
            None => pointer - page_shift(page_num as int) < 0 || pointer - page_shift(
                page_num as int,
            ) > len,
        },
{
    let shift: u16 = if page_num == 1 {
        100
    } else {
        0
    };
    if pointer < shift || (pointer - shift) as u64 > len as u64 {
        None
    } else {
        Some((pointer - shift) as usize)
    }
}

impl TableLeafPage {
    /// Decodes table leaf page `page_num` from `buffer`, which starts at the
    /// page's header. Pages are numbered from 1, and `page_size` is the usable
    /// size of a page in bytes.
    pub fn from(buffer: &[u8], page_num: u64, page_size: u64) -> (r: Result<TableLeafPage, MyError>)
        ensures
            match r {
                Ok(page) => decode_leaf_page(buffer@, page_num as int, page_size as int) == Ok::<
                    LeafPageModel,
                    MyError,
                >(page@) && page.wf(),
                Err(e) => decode_leaf_page(buffer@, page_num as int, page_size as int) == Err::<
                    LeafPageModel,
                    MyError,
                >(e),
            },
    {
        let page_header = match PageHeader::from(buffer, page_num) {
            Ok(h) => h,
            Err(e) => {
                return Err(e);
            },
        };
        match page_header.page_type {
            PageType::TableLeaf => {},
            _ => {
                return Err(MyError::InvalidPageType);
            },
        }
        if 8 + 2 * (page_header.cell_count as u64) > buffer.len() as u64 {
            return Err(MyError::Truncated);
        }
        let cell_pointers = read_cell_pointers(buffer, 8, page_header.cell_count);
        match Self::get_cells_from(buffer, page_num, page_header.cell_count as usize, 8, page_size) {
            Err(e) => Err(e),
            Ok(cells) => Ok(TableLeafPage { page_header, page_num, cell_pointers, cells }),
        }
    }

    /// Whether the page holds as many cell pointers and as many cells as its
    /// header counts.
    pub open spec fn wf(&self) -> bool {
        &&& self.cell_pointers@.len() == self.page_header.cell_count
        &&& self.cells@.len() == self.page_header.cell_count
    }

    /// The number of cells on the page.
    pub fn table_count(&self) -> (r: u16)
        ensures
            r == self.page_header.cell_count,
            self.wf() ==> r == self@.cells.len(),
    {
        self.page_header.cell_count
    }

    /// Decodes the `cell_count` cells of table leaf page `page_num` whose
    /// pointers stand in `buffer` from `header_size`, which is 8, on.
    fn get_cells_from(
        buffer: &[u8],
        page_num: u64,
        cell_count: usize,
        header_size: usize,
        page_size: u64,
    ) -> (r: Result<Vec<Cell>, MyError>)
        requires
            header_size == 8,
            cell_count <= u16::MAX,
            header_size + 2 * cell_count <= buffer@.len(),
        ensures
            match r {
                Ok(cells) => decode_leaf_cells(
                    buffer@,
                    page_num as int,
                    page_size as int,
                    cell_count as int,
                    0,
                ) == Ok::<Seq<CellModel>, MyError>(cells@.map_values(|c: Cell| c@))
                    && cells@.len() == cell_count,
                Err(e) => decode_leaf_cells(
                    buffer@,
                    page_num as int,
                    page_size as int,
                    cell_count as int,
                    0,
                ) == Err::<Seq<CellModel>, MyError>(e),
            },
    {
        let len: usize = buffer.len();
        let ghost whole = decode_leaf_cells(
            buffer@,
            page_num as int,
            page_size as int,
            cell_count as int,
            0,
        );
        let mut cells: Vec<Cell> = Vec::new();
        let mut i: usize = 0;
        while i < cell_count
            invariant
                i <= cell_count <= u16::MAX,
                header_size == 8,
                header_size + 2 * cell_count <= buffer@.len() == len,
                cells@.len() == i,
                whole == decode_leaf_cells(
                    buffer@,
                    page_num as int,
                    page_size as int,
                    cell_count as int,
                    0,
                ),
                match decode_leaf_cells(
                    buffer@,
                    page_num as int,
                    page_size as int,
                    cell_count as int,
                    i as int,
                ) {
                    Ok(rest) => whole == Ok::<Seq<CellModel>, MyError>(
                        cells@.map_values(|c: Cell| c@) + rest,
                    ),
                    Err(e) => whole == Err::<Seq<CellModel>, MyError>(e),
                },
            decreases cell_count - i,
        {
            let ghost before = cells@.map_values(|c: Cell| c@);
            proof {
                lemma_byte_limits();
                lemma_be_unsigned_bounded(
                    buffer@.subrange(header_size + 2 * i, header_size + 2 * i + 2),
                );
            }
            let pointer = read_be(buffer, header_size + 2 * i, 2) as u16;
            let start = match locate_cell(pointer, page_num, len) {
                Some(start) => start,
                None => {
                    return Err(MyError::Truncated);
                },
            };
            match Cell::from(slice_subrange(buffer, start, len), page_size) {
                Err(e) => {
                    return Err(e);
                },
                Ok(cell) => {
                    proof {
                        let rest = decode_leaf_cells(
                            buffer@,
                            page_num as int,
                            page_size as int,
                            cell_count as int,
                            i + 1,
                        );
                        assert(cells@.push(cell).map_values(|c: Cell| c@) =~= before.push(cell@));
                        if rest is Ok {
                            assert(before.push(cell@) + rest->Ok_0 =~= before + (seq![cell@]
                                + rest->Ok_0));
                        }
                    }
                    cells.push(cell);
                    i += 1;
                },
            }
        }
        Ok(cells)
    }
}

impl TableInteriorPage {
    /// Decodes table interior page `page_num` from `buffer`, which starts at
    /// the page's header. Pages are numbered from 1.
    pub fn from(buffer: &[u8], page_num: u64) -> (r: Result<TableInteriorPage, MyError>)
        ensures
            match r {
                Ok(page) => decode_interior_page(buffer@, page_num as int) == Ok::<
                    InteriorPageModel,
                    MyError,
                >(page@) && page.wf(),
                Err(e) => decode_interior_page(buffer@, page_num as int) == Err::<
                    InteriorPageModel,
                    MyError,
                >(e),
            },
    {
        let page_header = match PageHeader::from(buffer, page_num) {
            Ok(h) => h,
            Err(e) => {
                return Err(e);
            },
        };
        match page_header.page_type {
            PageType::TableInterior => {},
            _ => {
                return Err(MyError::InvalidPageType);
            },
        }
        if 12 + 2 * (page_header.cell_count as u64) > buffer.len() as u64 {
            return Err(MyError::Truncated);
        }
        let cell_pointers = read_cell_pointers(buffer, 12, page_header.cell_count);
        match Self::get_cells_from(buffer, page_num, page_header.cell_count as usize) {
            Err(e) => Err(e),
            Ok(cells) => Ok(TableInteriorPage { page_header, page_num, cell_pointers, cells }),
        }
    }

    /// Decodes the `cell_count` cells of table interior page `page_num` whose
    /// pointers stand in `buffer` from offset 12 on.
    fn get_cells_from(buffer: &[u8], page_num: u64, cell_count: usize) -> (r: Result<
        Vec<TableInteriorCell>,
        MyError,
    >)
        requires
            cell_count <= u16::MAX,
            12 + 2 * cell_count <= buffer@.len(),
        ensures
            match r {
                Ok(cells) => decode_interior_cells(buffer@, page_num as int, cell_count as int, 0)
                    == Ok::<Seq<TableInteriorCell>, MyError>(cells@) && cells@.len() == cell_count,
                Err(e) => decode_interior_cells(buffer@, page_num as int, cell_count as int, 0)
                    == Err::<Seq<TableInteriorCell>, MyError>(e),
            },
    {
        let len: usize = buffer.len();
        let ghost whole = decode_interior_cells(buffer@, page_num as int, cell_count as int, 0);
        let mut cells: Vec<TableInteriorCell> = Vec::new();
        let mut i: usize = 0;
        while i < cell_count
            invariant
                i <= cell_count <= u16::MAX,
                12 + 2 * cell_count <= buffer@.len() == len,
                cells@.len() == i,
                whole == decode_interior_cells(buffer@, page_num as int, cell_count as int, 0),
                match decode_interior_cells(buffer@, page_num as int, cell_count as int, i as int) {
                    Ok(rest) => whole == Ok::<Seq<TableInteriorCell>, MyError>(cells@ + rest),
                    Err(e) => whole == Err::<Seq<TableInteriorCell>, MyError>(e),
                },
            decreases cell_count - i,
        {
            let ghost before = cells@;
            proof {
                lemma_byte_limits();
                lemma_be_unsigned_bounded(buffer@.subrange(12 + 2 * i, 12 + 2 * i + 2));
            }
            let pointer = read_be(buffer, 12 + 2 * i, 2) as u16;
            let start = match locate_cell(pointer, page_num, len) {
                Some(start) => start,
                None => {
                    return Err(MyError::Truncated);
                },
            };
            match TableInteriorCell::from(slice_subrange(buffer, start, len)) {
                Err(e) => {
                    return Err(e);
                },
                Ok(cell) => {
                    proof {
                        let rest = decode_interior_cells(
                            buffer@,
                            page_num as int,
                            cell_count as int,
                            i + 1,
                        );
                        if rest is Ok {
                            assert(before.push(cell) + rest->Ok_0 =~= before + (seq![cell]
                                + rest->Ok_0));
                        }
                    }
                    cells.push(cell);
                    i += 1;
                },
            }
        }
        assert(cells@ + Seq::<TableInteriorCell>::empty() =~= cells@);
        Ok(cells)
    }

    /// Whether the page holds as many cell pointers and as many cells as its
    /// header counts, and its header has a rightmost pointer.
    pub open spec fn wf(&self) -> bool {
        &&& self.cell_pointers@.len() == self.page_header.cell_count
        &&& self.cells@.len() == self.page_header.cell_count
        &&& self.page_header.rightmost_pointer is Some
    }
}

/// A decoded page. Table pages come with their cells; of an index page only
/// the header is decoded.
#[derive(Debug, PartialEq, Eq)]
pub enum Page {
    TableLeaf(TableLeafPage),
    TableInterior(TableInteriorPage),
    IndexLeaf(PageHeader),
    IndexInterior(PageHeader),
}

/// What a `Page` stands for.
pub enum PageModel {
    TableLeaf(LeafPageModel),
    TableInterior(InteriorPageModel),
    IndexLeaf(PageHeader),
    IndexInterior(PageHeader),
}

impl View for Page {
    type V = PageModel;

    open spec fn view(&self) -> PageModel {
        match self {
            Page::TableLeaf(p) => PageModel::TableLeaf(p@),
            Page::TableInterior(p) => PageModel::TableInterior(p@),
            Page::IndexLeaf(h) => PageModel::IndexLeaf(*h),
            Page::IndexInterior(h) => PageModel::IndexInterior(*h),
        }
    }
}

/// Page `page_num` that `buffer` holds, in a file whose pages have `page_size`
/// usable bytes: what the header says it is.
pub open spec fn decode_page(buffer: Seq<u8>, page_num: int, page_size: int) -> Result<
    PageModel,
    MyError,
> {
    match decode_page_header(buffer, page_num) {
        Err(e) => Err(e),
        Ok(page_header) => match page_header.page_type {
            PageType::TableLeaf => match decode_leaf_page(buffer, page_num, page_size) {
                Err(e) => Err(e),
                Ok(p) => Ok(PageModel::TableLeaf(p)),
            },
            PageType::TableInterior => match decode_interior_page(buffer, page_num) {
                Err(e) => Err(e),
                Ok(p) => Ok(PageModel::TableInterior(p)),
            },
            PageType::IndexLeaf => Ok(PageModel::IndexLeaf(page_header)),
            PageType::IndexInterior => Ok(PageModel::IndexInterior(page_header)),
        },
    }
}

impl Page {
    /// Decodes page `page_num` from `buffer`, which starts at the page's
    /// header. Pages are numbered from 1, and `page_size` is the usable size
    /// of a page in bytes.
    pub fn from(buffer: &[u8], page_num: u64, page_size: u64) -> (r: Result<Page, MyError>)
        ensures
            match r {
                Ok(page) => decode_page(buffer@, page_num as int, page_size as int) == Ok::<
                    PageModel,
                    MyError,
                >(page@) && page.wf(),
                Err(e) => decode_page(buffer@, page_num as int, page_size as int) == Err::<
                    PageModel,
                    MyError,
                >(e),
            },
    {
        let page_header = match PageHeader::from(buffer, page_num) {
            Ok(h) => h,
            Err(e) => {
                return Err(e);
            },
        };
        match page_header.page_type {
            PageType::TableLeaf => match TableLeafPage::from(buffer, page_num, page_size) {
                Err(e) => Err(e),
                Ok(p) => Ok(Page::TableLeaf(p)),
            },
            PageType::TableInterior => match TableInteriorPage::from(buffer, page_num) {
                Err(e) => Err(e),
                Ok(p) => Ok(Page::TableInterior(p)),
            },
            PageType::IndexLeaf => Ok(Page::IndexLeaf(page_header)),
            PageType::IndexInterior => Ok(Page::IndexInterior(page_header)),
        }
    }

    /// Whether a table page holds as many cells as its header counts.
    pub open spec fn wf(&self) -> bool {
        match self {
            Page::TableLeaf(p) => p.wf(),
            Page::TableInterior(p) => p.wf(),
            _ => true,
        }
    }
}

/// A first byte that names no kind of page fails every page decoder with
/// `MyError::InvalidPageType`, whatever follows it and whichever page it is.
pub proof fn lemma_unknown_page_type(buffer: Seq<u8>, page_num: int, page_size: int)
    requires
        buffer.len() > 0,
        buffer[0] != 2 && buffer[0] != 5 && buffer[0] != 10 && buffer[0] != 13,
    ensures
        decode_page_header(buffer, page_num) == Err::<PageHeader, MyError>(
            MyError::InvalidPageType,
        ),
        decode_leaf_page(buffer, page_num, page_size) == Err::<LeafPageModel, MyError>(
            MyError::InvalidPageType,
        ),
        decode_interior_page(buffer, page_num) == Err::<InteriorPageModel, MyError>(
            MyError::InvalidPageType,
        ),
        decode_page(buffer, page_num, page_size) == Err::<PageModel, MyError>(
            MyError::InvalidPageType,
        ),
{
}

/// Whether `first`, the buffer of page 1, and `other`, the buffer of any other
/// page, lay out the same `count` cells behind a header of `header_size`
/// bytes: each cell pointer of `first` is 100 more than that of `other`, and
/// from where a cell starts the two buffers hold the same bytes.
pub open spec fn same_cells_shifted(
    first: Seq<u8>,
    other: Seq<u8>,
    header_size: int,
    count: int,
) -> bool {
    &&& first.len() == other.len()
    &&& forall|i: int|
        0 <= i < count ==> #[trigger] cell_pointer(first, header_size, i) == cell_pointer(
            other,
            header_size,
            i,
        ) + 100
    &&& forall|i: int|
        0 <= i < count && 0 <= cell_pointer(other, header_size, i) <= other.len()
            ==> first.subrange(#[trigger] cell_pointer(other, header_size, i), first.len() as int)
            == other.subrange(cell_pointer(other, header_size, i), other.len() as int)
}

/// Page 1 decodes to the cells of any other page with the same layout: taking
/// the 100 bytes of the file header from its cell pointers makes up for
/// their counting from the start of the page.
pub proof fn lemma_first_page_shift(
    first: Seq<u8>,
    other: Seq<u8>,
    other_num: int,
    page_size: int,
    count: int,
    i: int,
)
    requires
        other_num != 1,
        0 <= i,
    ensures
        same_cells_shifted(first, other, 8, count) ==> decode_leaf_cells(
            first,
            1,
            page_size,
            count,
            i,
        ) == decode_leaf_cells(other, other_num, page_size, count, i),
        same_cells_shifted(first, other, 12, count) ==> decode_interior_cells(first, 1, count, i)
            == decode_interior_cells(other, other_num, count, i),
    decreases count - i,
{
    if i < count {
        lemma_first_page_shift(first, other, other_num, page_size, count, i + 1);
        if same_cells_shifted(first, other, 8, count) {
            let start = cell_pointer(other, 8, i);
            assert(cell_start(first, 8, i, 1) == start);
            assert(cell_start(other, 8, i, other_num) == start);
        }
        if same_cells_shifted(first, other, 12, count) {
            let start = cell_pointer(other, 12, i);
            assert(cell_start(first, 12, i, 1) == start);
            assert(cell_start(other, 12, i, other_num) == start);
        }
    }
}

} // verus!
